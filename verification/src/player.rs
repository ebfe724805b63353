//! The player facade: the one surface the API layer calls. Each mutating
//! call performs its queue or controls change and then broadcasts the
//! corresponding event — exactly once per call, and only when something
//! actually changed.

use vstd::prelude::*;
use crate::audio::{
    adapted_len, adapted_sample_count, AudioFormat, DecodedAudio, DEFAULT_VOLUME, SILENCE,
    scaled_sample,
};
use crate::events::{delivered_all, event_json, Event, EventDestination, EventSink};
use crate::model::{PlaybackState, TrackId};
use crate::queue::{
    advance_rel, drain_payloads, EnqueuedTrack, EntryMarker, PlaybackControls, Queue, QueueItem,
    MAX_TRACK_SAMPLES,
};

verus! {

/// Why an enqueue was refused. In every case the queue is left unmodified.
#[derive(PartialEq, Eq, Structural, Clone, Copy, Debug)]
pub enum EnqueueError {
    /// The decoded source is malformed: no channels, a zero sample rate,
    /// ragged frames, or over the source length bound.
    UnsupportedSource,
    /// Adapted to the output format, the track would exceed the supported
    /// length.
    TrackTooLong,
    /// The marker counter is exhausted.
    MarkersExhausted,
}

/// The playback engine's facade: the queue and controls, and the event
/// fabric every change is announced through.
pub struct PlayerApp<D: EventDestination> {
    pub queue: Queue,
    pub event_sink: EventSink<D>,
}

impl<D: EventDestination> PlayerApp<D> {
    /// Both halves are well-formed.
    pub open spec fn wf(&self) -> bool {
        self.queue.wf() && self.event_sink.wf()
    }

    /// A fresh player around the given event sink: an empty queue at the
    /// default volume, neither paused nor muted.
    pub fn new(event_sink: EventSink<D>, audio_format: AudioFormat) -> (r: PlayerApp<D>)
        requires
            audio_format.wf(),
            event_sink.wf(),
        ensures
            r.wf(),
            r.queue.items() =~= Seq::<QueueItem>::empty(),
            r.queue.head_played() == 0,
            r.queue.next_marker() == 0,
            r.queue.format() == audio_format,
            r.queue.controls == (PlaybackControls {
                paused: false,
                muted: false,
                volume: DEFAULT_VOLUME,
            }),
            r.event_sink == event_sink,
    {
        PlayerApp { queue: Queue::new(DEFAULT_VOLUME, audio_format), event_sink }
    }

    /// The volume gain that would apply if unmuted.
    pub fn unmuted_volume(&self) -> (r: u32)
        ensures
            r == self.queue.controls.volume,
    {
        self.queue.controls.volume
    }

    /// Whether audio is muted.
    pub fn muted(&self) -> (r: bool)
        ensures
            r == self.queue.controls.muted,
    {
        self.queue.controls.muted
    }

    /// Whether playback is paused.
    pub fn paused(&self) -> (r: bool)
        ensures
            r == self.queue.controls.paused,
    {
        self.queue.controls.paused
    }

    /// Applies whichever of volume and muted were supplied — both optional,
    /// independently — and always broadcasts one volume-changed event with
    /// the resulting state.
    pub fn update_volume(&mut self, volume: Option<u32>, muted: Option<bool>)
        requires
            old(self).wf(),
        ensures
            final(self).wf(),
            final(self).queue.controls.volume == (match volume {
                Some(v) => v,
                None => old(self).queue.controls.volume,
            }),
            final(self).queue.controls.muted == (match muted {
                Some(m) => m,
                None => old(self).queue.controls.muted,
            }),
            final(self).queue.controls.paused == old(self).queue.controls.paused,
            final(self).queue.items() == old(self).queue.items(),
            final(self).queue.head_played() == old(self).queue.head_played(),
            final(self).queue.next_marker() == old(self).queue.next_marker(),
            final(self).queue.issued_markers() == old(self).queue.issued_markers(),
            final(self).queue.format() == old(self).queue.format(),
            final(self).event_sink.keys() =~= old(self).event_sink.keys(),
            final(self).event_sink.next_key_val() == old(self).event_sink.next_key_val(),
            delivered_all(
                old(self).event_sink.dests(),
                final(self).event_sink.dests(),
                seq![
                    event_json(
                        Event::VolumeChanged {
                            muted: final(self).queue.controls.muted,
                            volume: final(self).queue.controls.volume,
                        },
                    ),
                ],
            ),
    {
        match volume {
            Some(new_volume) => {
                self.queue.controls.volume = new_volume;
            },
            None => {},
        }
        match muted {
            Some(new_muted) => {
                self.queue.controls.muted = new_muted;
            },
            None => {},
        }
        let ev = Event::VolumeChanged {
            muted: self.queue.controls.muted,
            volume: self.queue.controls.volume,
        };
        self.event_sink.broadcast(&ev);
    }

    /// Resumes playback. Broadcasts one playback-changed event only if the
    /// paused flag actually changed; a no-op call is silent.
    pub fn unpause(&mut self)
        requires
            old(self).wf(),
        ensures
            final(self).wf(),
            final(self).queue.controls == (PlaybackControls {
                paused: false,
                ..old(self).queue.controls
            }),
            final(self).queue.items() == old(self).queue.items(),
            final(self).queue.head_played() == old(self).queue.head_played(),
            final(self).queue.next_marker() == old(self).queue.next_marker(),
            final(self).queue.issued_markers() == old(self).queue.issued_markers(),
            final(self).queue.format() == old(self).queue.format(),
            final(self).event_sink.keys() =~= old(self).event_sink.keys(),
            final(self).event_sink.next_key_val() == old(self).event_sink.next_key_val(),
            if old(self).queue.controls.paused {
                delivered_all(
                    old(self).event_sink.dests(),
                    final(self).event_sink.dests(),
                    seq![event_json(final(self).queue.track_changed_event())],
                )
            } else {
                *final(self) == *old(self)
            },
    {
        if self.queue.controls.paused {
            self.queue.controls.paused = false;
            let ev = Event::PlaybackChanged {
                paused: false,
                current_track: self.queue.current_track(),
            };
            self.event_sink.broadcast(&ev);
        }
    }

    /// Pauses playback. Broadcasts one playback-changed event only if the
    /// paused flag actually changed; a no-op call is silent.
    pub fn pause(&mut self)
        requires
            old(self).wf(),
        ensures
            final(self).wf(),
            final(self).queue.controls == (PlaybackControls {
                paused: true,
                ..old(self).queue.controls
            }),
            final(self).queue.items() == old(self).queue.items(),
            final(self).queue.head_played() == old(self).queue.head_played(),
            final(self).queue.next_marker() == old(self).queue.next_marker(),
            final(self).queue.issued_markers() == old(self).queue.issued_markers(),
            final(self).queue.format() == old(self).queue.format(),
            final(self).event_sink.keys() =~= old(self).event_sink.keys(),
            final(self).event_sink.next_key_val() == old(self).event_sink.next_key_val(),
            if !old(self).queue.controls.paused {
                delivered_all(
                    old(self).event_sink.dests(),
                    final(self).event_sink.dests(),
                    seq![event_json(final(self).queue.track_changed_event())],
                )
            } else {
                *final(self) == *old(self)
            },
    {
        if !self.queue.controls.paused {
            self.queue.controls.paused = true;
            let ev = Event::PlaybackChanged {
                paused: true,
                current_track: self.queue.current_track(),
            };
            self.event_sink.broadcast(&ev);
        }
    }

    /// Pops the current head, if any, raising one track-changed event
    /// either way.
    pub fn skip_to_next(&mut self)
        requires
            old(self).wf(),
        ensures
            final(self).wf(),
            final(self).queue.controls == old(self).queue.controls,
            final(self).queue.next_marker() == old(self).queue.next_marker(),
            final(self).queue.issued_markers() == old(self).queue.issued_markers(),
            final(self).queue.format() == old(self).queue.format(),
            final(self).queue.head_played() == 0,
            if old(self).queue.items().len() == 0 {
                final(self).queue.items() =~= old(self).queue.items()
            } else {
                final(self).queue.items() =~= old(self).queue.items().skip(1)
            },
            final(self).event_sink.keys() =~= old(self).event_sink.keys(),
            final(self).event_sink.next_key_val() == old(self).event_sink.next_key_val(),
            delivered_all(
                old(self).event_sink.dests(),
                final(self).event_sink.dests(),
                seq![event_json(final(self).queue.track_changed_event())],
            ),
    {
        let _ = self.queue.skip_current(&mut self.event_sink);
    }

    /// Validates a decoded track and appends it to the queue. On any error
    /// the queue is left unmodified and nothing is broadcast; on success
    /// this behaves as `Queue::enqueue_last`.
    pub fn add_to_queue(&mut self, track_id: TrackId, duration_millis: u64, audio: DecodedAudio)
        -> (r: Result<EntryMarker, EnqueueError>)
        requires
            old(self).wf(),
        ensures
            final(self).wf(),
            match r {
                Err(e) => {
                    &&& *final(self) == *old(self)
                    &&& (e == EnqueueError::UnsupportedSource <==> !audio.wf())
                    &&& (e == EnqueueError::TrackTooLong <==> audio.wf() && adapted_len(
                        audio.samples@.len() as int,
                        audio.channels as int,
                        audio.sample_rate as int,
                        old(self).queue.format().channels as int,
                        old(self).queue.format().sample_rate as int,
                    ) > MAX_TRACK_SAMPLES)
                    &&& (e == EnqueueError::MarkersExhausted <==> audio.wf() && adapted_len(
                        audio.samples@.len() as int,
                        audio.channels as int,
                        audio.sample_rate as int,
                        old(self).queue.format().channels as int,
                        old(self).queue.format().sample_rate as int,
                    ) <= MAX_TRACK_SAMPLES && old(self).queue.next_marker() == u64::MAX)
                },
                Ok(marker) => {
                    &&& audio.wf()
                    &&& marker.0 == old(self).queue.next_marker()
                    &&& old(self).queue.next_marker() < u64::MAX
                    &&& !old(self).queue.issued_markers().contains(marker.0)
                    &&& final(self).queue.issued_markers() =~= old(
                        self,
                    ).queue.issued_markers().insert(marker.0)
                    &&& final(self).queue.next_marker() == old(self).queue.next_marker() + 1
                    &&& final(self).queue.controls == old(self).queue.controls
                    &&& final(self).queue.format() == old(self).queue.format()
                    &&& final(self).queue.head_played() == old(self).queue.head_played()
                    &&& final(self).queue.items().len() == old(self).queue.items().len() + 1
                    &&& forall|k: int|
                        0 <= k < old(self).queue.items().len() ==> final(self).queue.items()[k]
                            == old(self).queue.items()[k]
                    &&& final(self).queue.items().last().track == (EnqueuedTrack {
                        id: track_id,
                        duration_millis,
                        entry_marker: marker,
                    })
                    &&& final(self).queue.items().last().samples@ =~= crate::audio::adapted_seq(
                        audio.samples@,
                        audio.channels as int,
                        audio.sample_rate as int,
                        old(self).queue.format().channels as int,
                        old(self).queue.format().sample_rate as int,
                    )
                    &&& final(self).event_sink.keys() =~= old(self).event_sink.keys()
                    &&& final(self).event_sink.next_key_val() == old(
                        self,
                    ).event_sink.next_key_val()
                    &&& if old(self).queue.items().len() == 0 {
                        delivered_all(
                            old(self).event_sink.dests(),
                            final(self).event_sink.dests(),
                            seq![event_json(final(self).queue.track_changed_event())],
                        )
                    } else {
                        final(self).event_sink == old(self).event_sink
                    }
                },
            },
    {
        if !audio.is_well_formed() {
            return Err(EnqueueError::UnsupportedSource);
        }
        let count = adapted_sample_count(&audio, &self.queue.audio_format);
        if count > MAX_TRACK_SAMPLES as u128 {
            return Err(EnqueueError::TrackTooLong);
        }
        if self.queue.next_entry_marker == u64::MAX {
            return Err(EnqueueError::MarkersExhausted);
        }
        let marker = self.queue.enqueue_last(
            track_id,
            duration_millis,
            audio,
            &mut self.event_sink,
        );
        Ok(marker)
    }

    /// Drops every queued item; at most one track-changed event, and only
    /// when there was a head to lose.
    pub fn empty_queue(&mut self)
        requires
            old(self).wf(),
        ensures
            final(self).wf(),
            final(self).queue.controls == old(self).queue.controls,
            final(self).queue.next_marker() == old(self).queue.next_marker(),
            final(self).queue.issued_markers() == old(self).queue.issued_markers(),
            final(self).queue.format() == old(self).queue.format(),
            final(self).queue.items() =~= Seq::<QueueItem>::empty(),
            final(self).queue.head_played() == 0,
            final(self).event_sink.keys() =~= old(self).event_sink.keys(),
            final(self).event_sink.next_key_val() == old(self).event_sink.next_key_val(),
            if old(self).queue.items().len() > 0 {
                delivered_all(
                    old(self).event_sink.dests(),
                    final(self).event_sink.dests(),
                    seq![event_json(final(self).queue.track_changed_event())],
                )
            } else {
                final(self).event_sink == old(self).event_sink
            },
    {
        self.queue.clear(&mut self.event_sink);
    }

    /// The read-only snapshot for "get playback state" queries.
    pub fn playback_state(&self) -> (r: PlaybackState)
        requires
            self.wf(),
        ensures
            r.muted == self.queue.controls.muted,
            r.volume == self.queue.controls.volume,
            r.paused == self.queue.controls.paused,
            r.current_track == self.queue.current_track_spec(),
    {
        PlaybackState {
            muted: self.queue.controls.muted,
            volume: self.queue.controls.volume,
            paused: self.queue.controls.paused,
            current_track: self.queue.current_track(),
        }
    }

    /// Pulls one output sample for the audio callback, under the controls'
    /// precedence; see `Queue::next`.
    pub fn next_sample(&mut self) -> (r: i64)
        requires
            old(self).wf(),
        ensures
            final(self).wf(),
            final(self).event_sink.keys() =~= old(self).event_sink.keys(),
            final(self).event_sink.next_key_val() == old(self).event_sink.next_key_val(),
            old(self).queue.controls.paused ==> *final(self) == *old(self) && r == SILENCE as i64,
            !old(self).queue.controls.paused ==> {
                &&& advance_rel(old(self).queue, final(self).queue)
                &&& delivered_all(
                    old(self).event_sink.dests(),
                    final(self).event_sink.dests(),
                    drain_payloads(
                        old(self).queue.items(),
                        old(self).queue.head_played(),
                        old(self).queue.controls.paused,
                        old(self).queue.format(),
                    ),
                )
                &&& (if old(self).queue.controls.muted {
                    r == SILENCE as i64
                } else {
                    r as int == scaled_sample(
                        old(self).queue.advance_sample() as int,
                        old(self).queue.controls.volume as int,
                    )
                })
            },
    {
        self.queue.next(&mut self.event_sink)
    }
}

} // verus!
