//! The playback queue: an ordered sequence of adapted tracks with
//! sample-position tracking. Every mutation that changes which track is at
//! the head raises a track-changed event through the broadcast fabric.

use vstd::prelude::*;
use crate::audio::{
    adapt, adapted_len, adapted_seq, scale_sample, scaled_sample, AudioFormat, DecodedAudio,
    SILENCE,
};
use crate::events::{delivered_all, event_json, Event, EventDestination, EventSink};
use crate::events::key_index;
use crate::model::TrackId;

verus! {

/// The longest adapted track the queue accepts, in samples, so that the
/// position arithmetic stays within `u64`.
pub const MAX_TRACK_SAMPLES: u64 = 0x10_0000_0000_0000;

/// Identifies one queue insertion: markers increase monotonically and are
/// never reused for the lifetime of the process. They are the only stable
/// handle for removing an item that is not at the head.
#[derive(PartialEq, Eq, Structural, Clone, Copy, Hash, Debug)]
pub struct EntryMarker(pub u64);

/// One queued track as the API layer sees it.
#[derive(Debug)]
pub struct EnqueuedTrack {
    pub id: TrackId,
    pub duration_millis: u64,
    pub entry_marker: EntryMarker,
}

impl Clone for EnqueuedTrack {
    fn clone(&self) -> (r: Self)
        ensures
            r == *self,
    {
        EnqueuedTrack {
            id: self.id.clone(),
            duration_millis: self.duration_millis,
            entry_marker: self.entry_marker,
        }
    }
}

impl PartialEq for EnqueuedTrack {
    fn eq(&self, other: &Self) -> (r: bool) {
        self.id == other.id && self.duration_millis == other.duration_millis
            && self.entry_marker == other.entry_marker
    }
}

impl vstd::std_specs::cmp::PartialEqSpecImpl for EnqueuedTrack {
    open spec fn obeys_eq_spec() -> bool {
        true
    }

    open spec fn eq_spec(&self, other: &Self) -> bool {
        self.id@ == other.id@ && self.duration_millis == other.duration_millis
            && self.entry_marker == other.entry_marker
    }
}

impl Eq for EnqueuedTrack {

}

/// The head of the queue with its playback position, computed on demand
/// and never stored.
#[derive(Debug)]
pub struct CurrentTrack {
    pub track: EnqueuedTrack,
    pub position_millis: u64,
}

impl Clone for CurrentTrack {
    fn clone(&self) -> (r: Self)
        ensures
            r == *self,
    {
        CurrentTrack { track: self.track.clone(), position_millis: self.position_millis }
    }
}

/// Pause, mute, and the fixed-point volume gain. The engine imposes no
/// range on the volume; out-of-range values are the caller's business.
#[derive(PartialEq, Eq, Structural, Clone, Copy, Debug)]
pub struct PlaybackControls {
    pub paused: bool,
    pub muted: bool,
    pub volume: u32,
}

/// One queued item: the track the API layer sees, and its samples already
/// adapted to the output format. Only the head item ever advances, so the
/// play position lives on the queue itself.
#[derive(Debug)]
pub struct QueueItem {
    pub track: EnqueuedTrack,
    pub samples: Vec<i32>,
}

/// The playback position in milliseconds after a number of output samples.
pub open spec fn position_millis_spec(played: int, fmt: AudioFormat) -> int {
    (played * 1000) / ((fmt.channels as int) * (fmt.sample_rate as int))
}

/// The playback queue.
pub struct Queue {
    pub tracks: Vec<QueueItem>,
    pub head_played: usize,
    pub next_entry_marker: u64,
    pub audio_format: AudioFormat,
    pub issued: Ghost<Set<u64>>,
    pub controls: PlaybackControls,
}

impl Queue {
    /// The queued items, head first.
    pub open spec fn items(&self) -> Seq<QueueItem> {
        self.tracks@
    }

    /// How many samples of the head item have been emitted.
    pub open spec fn head_played(&self) -> int {
        self.head_played as int
    }

    /// The next marker to be issued.
    pub open spec fn next_marker(&self) -> u64 {
        self.next_entry_marker
    }

    /// The output format every item was adapted to.
    pub open spec fn format(&self) -> AudioFormat {
        self.audio_format
    }

    /// Every marker ever issued by this queue.
    pub open spec fn issued_markers(&self) -> Set<u64> {
        self.issued@
    }

    /// The markers of the queued items, head first.
    pub open spec fn markers(&self) -> Seq<u64> {
        self.items().map_values(|it: QueueItem| it.track.entry_marker.0)
    }

    /// Well-formedness: a usable format; every queued marker was issued and
    /// is below the counter, as is every issued marker; queued markers are
    /// pairwise distinct; item lengths are bounded; the head position never
    /// passes the head's end, and is zero while the queue is empty.
    pub open spec fn wf(&self) -> bool {
        &&& self.format().wf()
        &&& forall|k: int|
            0 <= k < self.items().len() ==> {
                let it = #[trigger] self.items()[k];
                &&& it.track.entry_marker.0 < self.next_marker()
                &&& self.issued_markers().contains(it.track.entry_marker.0)
                &&& it.samples@.len() <= MAX_TRACK_SAMPLES
            }
        &&& forall|m: u64| self.issued_markers().contains(m) ==> m < self.next_marker()
        &&& forall|i: int, j: int|
            0 <= i < j < self.items().len() ==> (#[trigger] self.items()[i]).track.entry_marker.0
                != (#[trigger] self.items()[j]).track.entry_marker.0
        &&& if self.items().len() == 0 {
            self.head_played() == 0
        } else {
            self.head_played() <= self.items()[0].samples@.len()
        }
    }

    /// The current-track projection: the head item and its position.
    pub open spec fn current_track_spec(&self) -> Option<CurrentTrack> {
        if self.items().len() == 0 {
            None
        } else {
            Some(
                CurrentTrack {
                    track: self.items()[0].track,
                    position_millis: position_millis_spec(self.head_played(), self.format()) as u64,
                },
            )
        }
    }

    /// The track-changed event for the queue's present state.
    pub open spec fn track_changed_event(&self) -> Event {
        Event::PlaybackChanged {
            paused: self.controls.paused,
            current_track: self.current_track_spec(),
        }
    }

    /// A fresh queue: empty, markers starting at zero, with the given
    /// initial volume, neither paused nor muted.
    pub fn new(initial_volume: u32, audio_format: AudioFormat) -> (q: Queue)
        requires
            audio_format.wf(),
        ensures
            q.wf(),
            q.items() =~= Seq::<QueueItem>::empty(),
            q.head_played() == 0,
            q.next_marker() == 0,
            q.issued_markers() =~= Set::<u64>::empty(),
            q.format() == audio_format,
            q.controls == (PlaybackControls { paused: false, muted: false, volume: initial_volume }),
    {
        Queue {
            tracks: Vec::new(),
            head_played: 0,
            next_entry_marker: 0,
            audio_format,
            issued: Ghost(Set::empty()),
            controls: PlaybackControls { paused: false, muted: false, volume: initial_volume },
        }
    }

    /// The current-track projection of the head, or nothing while the
    /// queue is empty.
    pub fn current_track(&self) -> (r: Option<CurrentTrack>)
        requires
            self.wf(),
        ensures
            r == self.current_track_spec(),
    {
        if self.tracks.len() == 0 {
            None
        } else {
            let t = self.tracks[0].track.clone();
            let pos = position_millis(self.head_played as u64, &self.audio_format);
            Some(CurrentTrack { track: t, position_millis: pos })
        }
    }

    /// Broadcasts a track-changed event for the present state.
    fn raise_track_changed<D: EventDestination>(&self, sink: &mut EventSink<D>)
        requires
            self.wf(),
            old(sink).wf(),
        ensures
            final(sink).wf(),
            final(sink).keys() =~= old(sink).keys(),
            final(sink).next_key_val() == old(sink).next_key_val(),
            delivered_all(
                old(sink).dests(),
                final(sink).dests(),
                seq![event_json(self.track_changed_event())],
            ),
    {
        let ev = Event::PlaybackChanged {
            paused: self.controls.paused,
            current_track: self.current_track(),
        };
        sink.broadcast(&ev);
    }

    /// Builds the queue item for one enqueue: adapts the source to the
    /// output format and assigns the next marker.
    fn create_track(&mut self, id: TrackId, duration_millis: u64, source: DecodedAudio) -> (t:
        QueueItem)
        requires
            old(self).wf(),
            source.wf(),
            adapted_len(
                source.samples@.len() as int,
                source.channels as int,
                source.sample_rate as int,
                old(self).format().channels as int,
                old(self).format().sample_rate as int,
            ) <= MAX_TRACK_SAMPLES,
            old(self).next_marker() < u64::MAX,
        ensures
            final(self).items() == old(self).items(),
            final(self).head_played() == old(self).head_played(),
            final(self).format() == old(self).format(),
            final(self).controls == old(self).controls,
            final(self).next_marker() == old(self).next_marker() + 1,
            final(self).issued_markers() =~= old(self).issued_markers().insert(
                old(self).next_marker(),
            ),
            !old(self).issued_markers().contains(old(self).next_marker()),
            final(self).wf(),
            t.track == (EnqueuedTrack {
                id,
                duration_millis,
                entry_marker: EntryMarker(old(self).next_marker()),
            }),
            t.samples@ =~= adapted_seq(
                source.samples@,
                source.channels as int,
                source.sample_rate as int,
                old(self).format().channels as int,
                old(self).format().sample_rate as int,
            ),
            t.samples@.len() <= MAX_TRACK_SAMPLES,
    {
        let entry_marker = EntryMarker(self.next_entry_marker);
        self.next_entry_marker = self.next_entry_marker + 1;
        proof {
            if old(self).issued_markers().contains(entry_marker.0) {
                assert(entry_marker.0 < old(self).next_marker());
            }
        }
        self.issued = Ghost(self.issued@.insert(entry_marker.0));
        let samples = adapt(&source, &self.audio_format);
        proof {
            assert(samples@ =~= adapted_seq(
                source.samples@,
                source.channels as int,
                source.sample_rate as int,
                self.audio_format.channels as int,
                self.audio_format.sample_rate as int,
            ));
        }
        QueueItem { track: EnqueuedTrack { id, duration_millis, entry_marker }, samples }
    }

    /// Appends a track at the tail. If the queue was empty this is a head
    /// change and raises exactly one track-changed event; otherwise it
    /// raises none. Returns the fresh entry marker.
    pub fn enqueue_last<D: EventDestination>(
        &mut self,
        id: TrackId,
        duration_millis: u64,
        source: DecodedAudio,
        sink: &mut EventSink<D>,
    ) -> (marker: EntryMarker)
        requires
            old(self).wf(),
            old(sink).wf(),
            source.wf(),
            adapted_len(
                source.samples@.len() as int,
                source.channels as int,
                source.sample_rate as int,
                old(self).format().channels as int,
                old(self).format().sample_rate as int,
            ) <= MAX_TRACK_SAMPLES,
            old(self).next_marker() < u64::MAX,
        ensures
            final(self).wf(),
            final(sink).wf(),
            final(sink).keys() =~= old(sink).keys(),
            final(sink).next_key_val() == old(sink).next_key_val(),
            marker.0 == old(self).next_marker(),
            !old(self).issued_markers().contains(marker.0),
            final(self).issued_markers() =~= old(self).issued_markers().insert(marker.0),
            final(self).next_marker() == old(self).next_marker() + 1,
            final(self).controls == old(self).controls,
            final(self).format() == old(self).format(),
            final(self).head_played() == old(self).head_played(),
            final(self).items().len() == old(self).items().len() + 1,
            forall|k: int|
                0 <= k < old(self).items().len() ==> final(self).items()[k] == old(self).items()[k],
            final(self).items().last().track == (EnqueuedTrack { id, duration_millis, entry_marker: marker
            }),
            final(self).items().last().samples@ =~= adapted_seq(
                source.samples@,
                source.channels as int,
                source.sample_rate as int,
                old(self).format().channels as int,
                old(self).format().sample_rate as int,
            ),
            if old(self).items().len() == 0 {
                delivered_all(
                    old(sink).dests(),
                    final(sink).dests(),
                    seq![event_json(final(self).track_changed_event())],
                )
            } else {
                *final(sink) == *old(sink)
            },
    {
        let t = self.create_track(id, duration_millis, source);
        let marker = t.track.entry_marker;
        self.tracks.push(t);
        if self.tracks.len() == 1 {
            self.raise_track_changed(sink);
        }
        marker
    }

    /// Inserts a track immediately after the current head — "play next"
    /// semantics: it does not interrupt what is playing, but goes before
    /// everything previously queued. With an empty queue it becomes the
    /// sole item, a head change, and raises exactly one track-changed
    /// event; otherwise it raises none. Returns the fresh entry marker.
    pub fn enqueue_next<D: EventDestination>(
        &mut self,
        id: TrackId,
        duration_millis: u64,
        source: DecodedAudio,
        sink: &mut EventSink<D>,
    ) -> (marker: EntryMarker)
        requires
            old(self).wf(),
            old(sink).wf(),
            source.wf(),
            adapted_len(
                source.samples@.len() as int,
                source.channels as int,
                source.sample_rate as int,
                old(self).format().channels as int,
                old(self).format().sample_rate as int,
            ) <= MAX_TRACK_SAMPLES,
            old(self).next_marker() < u64::MAX,
        ensures
            final(self).wf(),
            final(sink).wf(),
            final(sink).keys() =~= old(sink).keys(),
            final(sink).next_key_val() == old(sink).next_key_val(),
            marker.0 == old(self).next_marker(),
            !old(self).issued_markers().contains(marker.0),
            final(self).issued_markers() =~= old(self).issued_markers().insert(marker.0),
            final(self).next_marker() == old(self).next_marker() + 1,
            final(self).controls == old(self).controls,
            final(self).format() == old(self).format(),
            final(self).head_played() == old(self).head_played(),
            final(self).items().len() == old(self).items().len() + 1,
            ({
                let item_pos: int = if old(self).items().len() == 0 {
                    0
                } else {
                    1
                };
                &&& final(self).items()[item_pos].track == (EnqueuedTrack {
                    id,
                    duration_millis,
                    entry_marker: marker,
                })
                &&& final(self).items()[item_pos].samples@ =~= adapted_seq(
                    source.samples@,
                    source.channels as int,
                    source.sample_rate as int,
                    old(self).format().channels as int,
                    old(self).format().sample_rate as int,
                )
                &&& final(self).items() =~= old(self).items().insert(
                    item_pos,
                    final(self).items()[item_pos],
                )
            }),
            if old(self).items().len() == 0 {
                delivered_all(
                    old(sink).dests(),
                    final(sink).dests(),
                    seq![event_json(final(self).track_changed_event())],
                )
            } else {
                *final(sink) == *old(sink)
            },
    {
        let t = self.create_track(id, duration_millis, source);
        let marker = t.track.entry_marker;
        if self.tracks.len() == 0 {
            self.tracks.push(t);
            proof {
                assert(self.items() =~= old(self).items().insert(0, self.items()[0]));
            }
            self.raise_track_changed(sink);
        } else {
            self.tracks.insert(1, t);
        }
        marker
    }

    /// Unconditionally pops the head, if any, and raises a track-changed
    /// event either way — even when the queue becomes, or already was,
    /// empty.
    pub fn skip_current<D: EventDestination>(&mut self, sink: &mut EventSink<D>) -> (r: Option<
        EnqueuedTrack,
    >)
        requires
            old(self).wf(),
            old(sink).wf(),
        ensures
            final(self).wf(),
            final(sink).wf(),
            final(sink).keys() =~= old(sink).keys(),
            final(sink).next_key_val() == old(sink).next_key_val(),
            final(self).controls == old(self).controls,
            final(self).format() == old(self).format(),
            final(self).next_marker() == old(self).next_marker(),
            final(self).issued_markers() == old(self).issued_markers(),
            final(self).head_played() == 0,
            if old(self).items().len() == 0 {
                r is None && final(self).items() =~= old(self).items()
            } else {
                r == Some(old(self).items()[0].track) && final(self).items() =~= old(
                    self,
                ).items().skip(1)
            },
            delivered_all(
                old(sink).dests(),
                final(sink).dests(),
                seq![event_json(final(self).track_changed_event())],
            ),
    {
        let popped = if self.tracks.len() == 0 {
            None
        } else {
            let it = self.tracks.remove(0);
            self.head_played = 0;
            proof {
                assert(self.items() =~= old(self).items().skip(1));
            }
            Some(it.track)
        };
        self.raise_track_changed(sink);
        popped
    }

    /// Scans for the item bearing this marker and removes it, wherever it
    /// stands in the queue; reports whether one was found. Markers are
    /// unique, so at most one item can match. Raises no event.
    pub fn remove(&mut self, marker: EntryMarker) -> (found: bool)
        requires
            old(self).wf(),
        ensures
            final(self).wf(),
            final(self).controls == old(self).controls,
            final(self).format() == old(self).format(),
            final(self).next_marker() == old(self).next_marker(),
            final(self).issued_markers() == old(self).issued_markers(),
            found <==> old(self).markers().contains(marker.0),
            ({
                let i = key_index(old(self).markers(), marker.0);
                if found {
                    &&& 0 <= i < old(self).items().len()
                    &&& old(self).items()[i].track.entry_marker == marker
                    &&& final(self).items() =~= old(self).items().remove(i)
                    &&& final(self).head_played() == (if i == 0 {
                        0int
                    } else {
                        old(self).head_played()
                    })
                } else {
                    final(self).items() =~= old(self).items() && final(self).head_played() == old(
                        self,
                    ).head_played()
                }
            }),
    {
        let ghost gmarkers = self.markers();
        let mut i: usize = 0;
        while i < self.tracks.len()
            invariant
                0 <= i <= self.tracks@.len(),
                old(self).wf(),
                self == old(self),
                gmarkers == self.markers(),
                forall|j: int| 0 <= j < i ==> #[trigger] gmarkers[j] != marker.0,
            decreases self.tracks@.len() - i,
        {
            if self.tracks[i].track.entry_marker.0 == marker.0 {
                proof {
                    assert(gmarkers[i as int] == marker.0);
                    crate::events::lemma_key_index(gmarkers, marker.0);
                    assert(key_index(gmarkers, marker.0) == i) by {
                        let ki = key_index(gmarkers, marker.0);
                        if ki < i {
                            assert(gmarkers[ki] != marker.0);
                        }
                    }
                    assert(gmarkers.contains(marker.0));
                }
                self.tracks.remove(i);
                if i == 0 {
                    self.head_played = 0;
                }
                proof {
                    assert(self.items() =~= old(self).items().remove(i as int));
                    assert(forall|a: int|
                        0 <= a < self.items().len() ==> #[trigger] self.items()[a] == (if a < i {
                            old(self).items()[a]
                        } else {
                            old(self).items()[a + 1]
                        }));
                    assert forall|a: int, b: int|
                        0 <= a < b < self.items().len() implies (#[trigger] self.items()[a]).track.entry_marker.0
                        != (#[trigger] self.items()[b]).track.entry_marker.0 by {
                        let a0: int = if a < i { a } else { a + 1 };
                        let b0: int = if b < i { b } else { b + 1 };
                        let oi = old(self).items();
                        assert(old(self).wf());
                        assert(0 <= a0 < b0 < oi.len());
                        assert(self.items()[a] == oi[a0]);
                        assert(self.items()[b] == oi[b0]);
                        assert(oi[a0].track.entry_marker.0 != oi[b0].track.entry_marker.0);
                    }
                    if i > 0 {
                        assert(self.items()[0] == old(self).items()[0]);
                    }
                }
                return true;
            }
            i += 1;
        }
        proof {
            crate::events::lemma_key_index(gmarkers, marker.0);
            assert(key_index(gmarkers, marker.0) == gmarkers.len()) by {
                let ki = key_index(gmarkers, marker.0);
                if ki < gmarkers.len() {
                    assert(gmarkers[ki] == marker.0);
                }
            }
        }
        false
    }

    /// Drops every queued item at once, without per-item events. A single
    /// track-changed event is raised only when there was a head to lose:
    /// clearing an already-empty queue is silent.
    pub fn clear<D: EventDestination>(&mut self, sink: &mut EventSink<D>)
        requires
            old(self).wf(),
            old(sink).wf(),
        ensures
            final(self).wf(),
            final(sink).wf(),
            final(sink).keys() =~= old(sink).keys(),
            final(sink).next_key_val() == old(sink).next_key_val(),
            final(self).controls == old(self).controls,
            final(self).format() == old(self).format(),
            final(self).next_marker() == old(self).next_marker(),
            final(self).issued_markers() == old(self).issued_markers(),
            final(self).items() =~= Seq::<QueueItem>::empty(),
            final(self).head_played() == 0,
            if old(self).items().len() > 0 {
                delivered_all(
                    old(sink).dests(),
                    final(sink).dests(),
                    seq![event_json(final(self).track_changed_event())],
                )
            } else {
                *final(sink) == *old(sink)
            },
    {
        if self.tracks.len() > 0 {
            self.tracks = Vec::new();
            self.head_played = 0;
            self.raise_track_changed(sink);
        }
    }
}

/// The current-track projection of an item sequence: its head and the head's
/// position.
pub open spec fn current_of(items: Seq<QueueItem>, head_played: int, fmt: AudioFormat) -> Option<
    CurrentTrack,
> {
    if items.len() == 0 {
        None
    } else {
        Some(
            CurrentTrack {
                track: items[0].track,
                position_millis: position_millis_spec(head_played, fmt) as u64,
            },
        )
    }
}

/// How many exhausted items stand at the head: the items one pull pops
/// before it can take a sample.
pub open spec fn drained_count(items: Seq<QueueItem>, head_played: int) -> int
    decreases items.len(),
{
    if items.len() == 0 {
        0
    } else if head_played == items[0].samples@.len() {
        1 + drained_count(items.skip(1), 0)
    } else {
        0
    }
}

/// The payloads one unpaused pull broadcasts: one track-changed event per
/// exhausted item popped, each carrying the queue state after that pop.
pub open spec fn drain_payloads(
    items: Seq<QueueItem>,
    head_played: int,
    paused: bool,
    fmt: AudioFormat,
) -> Seq<Seq<char>>
    decreases items.len(),
{
    if items.len() == 0 {
        Seq::empty()
    } else if head_played == items[0].samples@.len() {
        seq![
            event_json(
                Event::PlaybackChanged {
                    paused,
                    current_track: current_of(items.skip(1), 0, fmt),
                },
            ),
        ] + drain_payloads(items.skip(1), 0, paused, fmt)
    } else {
        Seq::empty()
    }
}

/// How one unpaused pull transforms the queue: the exhausted head items are
/// popped, then the new head advances by one sample — or the queue is empty
/// and stays so.
pub open spec fn advance_rel(pre: Queue, post: Queue) -> bool {
    let d = drained_count(pre.items(), pre.head_played());
    &&& post.controls == pre.controls
    &&& post.next_marker() == pre.next_marker()
    &&& post.issued_markers() == pre.issued_markers()
    &&& post.format() == pre.format()
    &&& if d < pre.items().len() {
        &&& post.items() =~= pre.items().skip(d)
        &&& post.head_played() == (if d == 0 {
            pre.head_played()
        } else {
            0int
        }) + 1
    } else {
        &&& post.items() =~= Seq::<QueueItem>::empty()
        &&& post.head_played() == 0
    }
}

impl Queue {
    /// The sample one unpaused pull takes from the queue, before the volume
    /// gain: the first sample a non-exhausted item can offer, or silence
    /// when none can.
    pub open spec fn advance_sample(&self) -> i32 {
        let d = drained_count(self.items(), self.head_played());
        if d < self.items().len() {
            let hp: int = if d == 0 {
                self.head_played()
            } else {
                0
            };
            self.items()[d].samples@[hp]
        } else {
            SILENCE
        }
    }

    /// Pulls one sample from the head's adapted source. On exhaustion it
    /// pops the head, raises a track-changed event, and moves to the new
    /// head — the single origin of queue-exhaustion transitions — or emits
    /// silence once the queue is empty.
    pub fn next_sample<D: EventDestination>(&mut self, sink: &mut EventSink<D>) -> (r: i32)
        requires
            old(self).wf(),
            old(sink).wf(),
        ensures
            final(self).wf(),
            final(sink).wf(),
            final(sink).keys() =~= old(sink).keys(),
            final(sink).next_key_val() == old(sink).next_key_val(),
            advance_rel(*old(self), *final(self)),
            r == old(self).advance_sample(),
            delivered_all(
                old(sink).dests(),
                final(sink).dests(),
                drain_payloads(
                    old(self).items(),
                    old(self).head_played(),
                    old(self).controls.paused,
                    old(self).format(),
                ),
            ),
    {
        let ghost pre = *old(self);
        let ghost total = drain_payloads(
            pre.items(),
            pre.head_played(),
            pre.controls.paused,
            pre.format(),
        );
        let ghost mut acc: Seq<Seq<char>> = Seq::empty();
        let pre_len = self.tracks.len();
        let mut pops: usize = 0;
        loop
            invariant
                self.wf(),
                sink.wf(),
                sink.keys() =~= old(sink).keys(),
                sink.next_key_val() == old(sink).next_key_val(),
                pre == *old(self),
                pre.wf(),
                total == drain_payloads(
                    pre.items(),
                    pre.head_played(),
                    pre.controls.paused,
                    pre.format(),
                ),
                self.controls == pre.controls,
                self.next_marker() == pre.next_marker(),
                self.issued_markers() == pre.issued_markers(),
                self.format() == pre.format(),
                pre.items().len() == pre_len,
                0 <= pops <= pre.items().len(),
                self.items() =~= pre.items().skip(pops as int),
                self.head_played() == (if pops == 0 {
                    pre.head_played()
                } else {
                    0int
                }),
                drained_count(pre.items(), pre.head_played()) == pops + drained_count(
                    self.items(),
                    self.head_played(),
                ),
                total =~= acc + drain_payloads(
                    self.items(),
                    self.head_played(),
                    pre.controls.paused,
                    pre.format(),
                ),
                delivered_all(old(sink).dests(), sink.dests(), acc),
            decreases pre.items().len() - pops,
        {
            if self.tracks.len() == 0 {
                proof {
                    assert(drained_count(self.items(), self.head_played()) == 0);
                    assert(drain_payloads(
                        self.items(),
                        self.head_played(),
                        pre.controls.paused,
                        pre.format(),
                    ) =~= Seq::<Seq<char>>::empty());
                    assert(total =~= acc);
                    assert(drained_count(pre.items(), pre.head_played()) == pops
                        == pre.items().len());
                    assert(pre.advance_sample() == SILENCE);
                }
                return SILENCE;
            }
            let hp = self.head_played;
            let head_len = self.tracks[0].samples.len();
            if hp < head_len {
                let s = self.tracks[0].samples[hp];
                self.head_played = hp + 1;
                proof {
                    let d = drained_count(pre.items(), pre.head_played());
                    assert(drained_count(pre.items().skip(pops as int), hp as int) == 0);
                    assert(d == pops);
                    assert(pre.items()[d as int] == pre.items().skip(pops as int)[0]);
                    assert(s == pre.advance_sample());
                    assert(drain_payloads(
                        pre.items().skip(pops as int),
                        hp as int,
                        pre.controls.paused,
                        pre.format(),
                    ) =~= Seq::<Seq<char>>::empty());
                    assert(total =~= acc);
                    assert(advance_rel(pre, *self));
                }
                return s;
            }
            let ghost items_before = self.items();
            self.tracks.remove(0);
            self.head_played = 0;
            proof {
                assert(self.items() =~= items_before.skip(1));
                assert(self.items() =~= pre.items().skip(pops + 1));
            }
            self.raise_track_changed(sink);
            proof {
                let ev = Event::PlaybackChanged {
                    paused: pre.controls.paused,
                    current_track: current_of(self.items(), 0, pre.format()),
                };
                assert(self.track_changed_event() == ev);
                assert(drain_payloads(
                    items_before,
                    hp as int,
                    pre.controls.paused,
                    pre.format(),
                ) =~= seq![event_json(ev)] + drain_payloads(
                    self.items(),
                    0,
                    pre.controls.paused,
                    pre.format(),
                ));
                let ghost acc2 = acc + seq![event_json(ev)];
                assert(total =~= acc2 + drain_payloads(
                    self.items(),
                    0,
                    pre.controls.paused,
                    pre.format(),
                ));
                assert forall|k: int| 0 <= k < old(sink).dests().len() implies #[trigger] sink.dests()[k].received()
                    == old(sink).dests()[k].received() + acc2 by {
                    assert(sink.dests()[k].received() =~= old(sink).dests()[k].received() + acc2);
                }
                acc = acc2;
            }
            proof {
                assert(pops < pre.items().len());
            }
            pops = pops + 1;
        }
    }

    /// Produces one output sample under the controls' exact precedence:
    /// paused emits silence without touching the queue, so the position
    /// freezes; muted pulls from the queue — position and end-of-track
    /// transitions keep moving — but emits silence; otherwise the queue
    /// sample is emitted scaled by the volume gain.
    pub fn next<D: EventDestination>(&mut self, sink: &mut EventSink<D>) -> (r: i64)
        requires
            old(self).wf(),
            old(sink).wf(),
        ensures
            final(self).wf(),
            final(sink).wf(),
            final(sink).keys() =~= old(sink).keys(),
            final(sink).next_key_val() == old(sink).next_key_val(),
            old(self).controls.paused ==> *final(self) == *old(self) && *final(sink) == *old(
                sink,
            ) && r == SILENCE as i64,
            !old(self).controls.paused ==> {
                &&& advance_rel(*old(self), *final(self))
                &&& delivered_all(
                    old(sink).dests(),
                    final(sink).dests(),
                    drain_payloads(
                        old(self).items(),
                        old(self).head_played(),
                        old(self).controls.paused,
                        old(self).format(),
                    ),
                )
                &&& (if old(self).controls.muted {
                    r == SILENCE as i64
                } else {
                    r as int == scaled_sample(
                        old(self).advance_sample() as int,
                        old(self).controls.volume as int,
                    )
                })
            },
    {
        if self.controls.paused {
            SILENCE as i64
        } else if self.controls.muted {
            let _ = self.next_sample(sink);
            SILENCE as i64
        } else {
            let s = self.next_sample(sink);
            scale_sample(s, self.controls.volume)
        }
    }
}

/// One unpaused pull broadcasts exactly one track-changed event per track
/// it exhausts: crossing one end-of-track raises exactly one event, and a
/// pull that stays within a track raises none.
pub proof fn lemma_drain_payload_count(
    items: Seq<QueueItem>,
    head_played: int,
    paused: bool,
    fmt: AudioFormat,
)
    ensures
        drain_payloads(items, head_played, paused, fmt).len() == drained_count(
            items,
            head_played,
        ),
    decreases items.len(),
{
    if items.len() == 0 {
    } else if head_played == items[0].samples@.len() {
        lemma_drain_payload_count(items.skip(1), 0, paused, fmt);
    }
}

/// Entry markers are unique: in any well-formed queue, no two items share
/// a marker, however many enqueues and removals produced it.
pub proof fn lemma_markers_distinct(q: Queue)
    requires
        q.wf(),
    ensures
        forall|i: int, j: int|
            0 <= i < j < q.markers().len() ==> #[trigger] q.markers()[i] != #[trigger] q.markers()[j],
{
    assert forall|i: int, j: int|
        0 <= i < j < q.markers().len() implies #[trigger] q.markers()[i]
        != #[trigger] q.markers()[j] by {
        assert(q.markers()[i] == q.items()[i].track.entry_marker.0);
        assert(q.markers()[j] == q.items()[j].track.entry_marker.0);
    }
}

/// Converts a sample count into milliseconds at the output format's rate.
fn position_millis(played: u64, fmt: &AudioFormat) -> (r: u64)
    requires
        fmt.wf(),
        played <= MAX_TRACK_SAMPLES,
    ensures
        r == position_millis_spec(played as int, *fmt),
{
    proof {
        assert(1 <= (fmt.channels as int) * (fmt.sample_rate as int)
            <= 0x1_0000_0000_0000) by (nonlinear_arith)
            requires
                1 <= fmt.channels as int <= 0x1_0000,
                1 <= fmt.sample_rate as int <= 0x1_0000_0000,
        ;
    }
    let d: u64 = (fmt.channels as u64) * (fmt.sample_rate as u64);
    let q: u64 = played / d;
    let rm: u64 = played % d;
    proof {
        vstd::arithmetic::div_mod::lemma_mod_bound(played as int, d as int);
        vstd::arithmetic::div_mod::lemma_div_nonincreasing(played as int, d as int);
        vstd::arithmetic::div_mod::lemma_div_pos_is_pos(played as int, d as int);
    }
    let rq: u64 = (rm * 1000) / d;
    proof {
        let ghost rr = (rm * 1000) % (d as int);
        vstd::arithmetic::div_mod::lemma_mod_bound(rm as int * 1000, d as int);
        vstd::arithmetic::div_mod::lemma_div_nonincreasing(rm as int * 1000, d as int);
        vstd::arithmetic::div_mod::lemma_div_pos_is_pos(rm as int * 1000, d as int);
        vstd::arithmetic::div_mod::lemma_fundamental_div_mod(rm as int * 1000, d as int);
        vstd::arithmetic::div_mod::lemma_fundamental_div_mod(played as int, d as int);
        assert(played as int * 1000 == d as int * (1000 * (q as int) + rq as int) + rr)
            by (nonlinear_arith)
            requires
                played as int == d as int * (q as int) + rm as int,
                rm as int * 1000 == d as int * (rq as int) + rr,
        ;
        assert((played as int * 1000) / (d as int) == 1000 * (q as int) + rq as int) by {
            vstd::arithmetic::div_mod::lemma_fundamental_div_mod_converse(
                played as int * 1000,
                d as int,
                1000 * (q as int) + rq as int,
                rr,
            );
        }
    }
    q * 1000 + rq
}

} // verus!
