//! Core of a personal audio-playback server: a sample-accurate playback
//! queue, pause/mute/volume controls, an event-broadcast fabric, and the
//! track-addressing identity model shared by the queue and the API layer.
//!
//! External collaborators (catalog storage, music-service clients, audio
//! decoding and device output, HTTP/WebSocket transport) stay outside this
//! crate; it deals only in plain values handed across that boundary.

pub mod audio;
pub mod completions;
pub mod events;
pub mod ids;
pub mod idtext;
pub mod json;
pub mod model;
pub mod numtext;
pub mod player;
pub mod queue;
pub mod search;
pub mod services;
pub mod websocket;
