//! The event-notification fabric: serialized state-change events broadcast
//! to a registry of destinations with arena semantics — registration hands
//! back a stable key, removal by key leaves every other key valid, and one
//! broadcast reaches exactly the destinations registered when it starts.

use vstd::prelude::*;
use crate::idtext::id_text;
use crate::json::{append_json_string, json_string};
use crate::numtext::{format_u64, nat_text};
use crate::queue::{CurrentTrack, EnqueuedTrack};
use vstd::string::StringExecFns;

verus! {

/// A serialized event or response body, ready to hand to any destination.
#[derive(Debug)]
pub struct Payload {
    pub json: String,
}

impl Clone for Payload {
    fn clone(&self) -> (r: Self)
        ensures
            r == *self,
    {
        Payload { json: self.json.clone() }
    }
}

/// The outcome of one API request: a payload either way.
pub type Response = Result<Payload, Payload>;

/// A state change the engine announces to every registered destination.
#[derive(Debug)]
pub enum Event {
    VolumeChanged { muted: bool, volume: u32 },
    PlaybackChanged { paused: bool, current_track: Option<CurrentTrack> },
}

/// The JSON text for a boolean.
pub open spec fn bool_json(b: bool) -> Seq<char> {
    if b {
        "true"@
    } else {
        "false"@
    }
}

/// The JSON text for one queued track: its identity in canonical text form,
/// its duration, and its entry marker (as a string, so that consumers never
/// round it).
pub open spec fn track_json(t: EnqueuedTrack) -> Seq<char> {
    "{\"id\":"@ + json_string(id_text(t.id@)) + ",\"duration_millis\":"@ + nat_text(
        t.duration_millis as int,
    ) + ",\"entry_marker\":\""@ + nat_text(t.entry_marker.0 as int) + "\"}"@
}

/// The JSON text for the current-track projection.
pub open spec fn current_track_json(c: Option<CurrentTrack>) -> Seq<char> {
    match c {
        Some(ct) => "{\"track\":"@ + track_json(ct.track) + ",\"position_millis\":"@ + nat_text(
            ct.position_millis as int,
        ) + "}"@,
        None => "null"@,
    }
}

/// The JSON text of an event, tagged by its kind.
pub open spec fn event_json(e: Event) -> Seq<char> {
    match e {
        Event::VolumeChanged { muted, volume } => "{\"type\":\"VolumeChanged\",\"args\":{\"muted\":"@
            + bool_json(muted) + ",\"volume\":"@ + nat_text(volume as int) + "}}"@,
        Event::PlaybackChanged { paused, current_track } =>
            "{\"type\":\"PlaybackChanged\",\"args\":{\"paused\":"@ + bool_json(paused)
            + ",\"current_track\":"@ + current_track_json(current_track) + "}}"@,
    }
}

/// Serializes an event once; every destination of one broadcast receives
/// this same text.
pub fn event_to_json(e: &Event) -> (r: String)
    ensures
        r@ == event_json(*e),
{
    let mut out = String::new();
    match e {
        Event::VolumeChanged { muted, volume } => {
            out.append("{\"type\":\"VolumeChanged\",\"args\":{\"muted\":");
            append_bool(&mut out, *muted);
            out.append(",\"volume\":");
            let vtext = format_u64(*volume as u64);
            out.append(vtext.as_str());
            out.append("}}");
            proof {
                assert(out@ =~= event_json(*e));
            }
        },
        Event::PlaybackChanged { paused, current_track } => {
            out.append("{\"type\":\"PlaybackChanged\",\"args\":{\"paused\":");
            append_bool(&mut out, *paused);
            out.append(",\"current_track\":");
            match current_track {
                Some(ct) => {
                    out.append("{\"track\":");
                    append_track(&mut out, &ct.track);
                    out.append(",\"position_millis\":");
                    let ptext = format_u64(ct.position_millis);
                    out.append(ptext.as_str());
                    out.append("}");
                },
                None => {
                    out.append("null");
                },
            }
            out.append("}}");
            proof {
                assert(out@ =~= event_json(*e));
            }
        },
    }
    out
}

/// Appends the JSON text for a boolean.
fn append_bool(out: &mut String, b: bool)
    ensures
        final(out)@ == old(out)@ + bool_json(b),
{
    if b {
        out.append("true");
    } else {
        out.append("false");
    }
}

/// Appends the JSON text for one queued track.
fn append_track(out: &mut String, t: &EnqueuedTrack)
    ensures
        final(out)@ == old(out)@ + track_json(*t),
{
    out.append("{\"id\":");
    let idtext = t.id.to_string();
    append_json_string(out, idtext.as_str());
    out.append(",\"duration_millis\":");
    let dtext = format_u64(t.duration_millis);
    out.append(dtext.as_str());
    out.append(",\"entry_marker\":\"");
    let mtext = format_u64(t.entry_marker.0);
    out.append(mtext.as_str());
    out.append("\"}");
    proof {
        assert(out@ =~= old(out)@ + track_json(*t));
    }
}

/// A sink that accepts serialized events: a log writer, a WebSocket
/// connection, or a test collector. `received` is the sequence of payload
/// texts delivered to it, oldest first.
pub trait EventDestination: Sized {
    spec fn received(&self) -> Seq<Seq<char>>;

    fn send_event(&mut self, payload: &Payload)
        ensures
            final(self).received() == old(self).received().push(payload.json@),
    ;
}

/// A sink that accepts the response to one identified request.
pub trait ResponseDestination: Sized {
    fn send_response(&mut self, request_id: String, response: Response);
}

/// A destination that stores every payload it receives, in order.
#[derive(Debug)]
pub struct EventCollector {
    payloads: Vec<Payload>,
}

impl EventCollector {
    pub fn new() -> (r: EventCollector)
        ensures
            r.received() =~= Seq::<Seq<char>>::empty(),
    {
        EventCollector { payloads: Vec::new() }
    }

    /// The payloads delivered so far, oldest first.
    pub fn payloads(&self) -> (r: &Vec<Payload>)
        ensures
            r@.len() == self.received().len(),
            forall|i: int|
                0 <= i < r@.len() ==> #[trigger] r@[i].json@ == self.received()[i],
    {
        &self.payloads
    }
}

impl EventDestination for EventCollector {
    closed spec fn received(&self) -> Seq<Seq<char>> {
        self.payloads@.map_values(|p: Payload| p.json@)
    }

    fn send_event(&mut self, payload: &Payload) {
        self.payloads.push(payload.clone());
        proof {
            assert(self.received() =~= old(self).received().push(payload.json@));
        }
    }
}

/// A key handed out by `add_destination`, stable until that destination is
/// removed.
#[derive(PartialEq, Eq, Structural, Clone, Copy, Hash, Debug)]
pub struct DestinationKey(pub u64);

/// The index of the first occurrence of a key, or the length when absent.
pub open spec fn key_index(keys: Seq<u64>, k: u64) -> int
    decreases keys.len(),
{
    if keys.len() == 0 {
        0
    } else if keys[0] == k {
        0
    } else {
        1 + key_index(keys.skip(1), k)
    }
}

/// Position and minimality of the first occurrence of a key.
pub proof fn lemma_key_index(keys: Seq<u64>, k: u64)
    ensures
        0 <= key_index(keys, k) <= keys.len(),
        key_index(keys, k) < keys.len() ==> keys[key_index(keys, k)] == k,
        forall|i: int| 0 <= i < key_index(keys, k) ==> #[trigger] keys[i] != k,
        key_index(keys, k) == keys.len() ==> !keys.contains(k),
    decreases keys.len(),
{
    if keys.len() == 0 || keys[0] == k {
    } else {
        lemma_key_index(keys.skip(1), k);
        assert(forall|i: int| 1 <= i < keys.len() ==> #[trigger] keys[i] == keys.skip(1)[i - 1]);
        if key_index(keys, k) == keys.len() {
            assert(!keys.skip(1).contains(k));
            assert forall|i: int| 0 <= i < keys.len() implies keys[i] != k by {
                if i >= 1 {
                    assert(keys.skip(1)[i - 1] == keys[i]);
                    assert(!keys.skip(1).contains(k));
                    assert(keys.skip(1).contains(k) <==> exists|j: int|
                        0 <= j < keys.skip(1).len() && keys.skip(1)[j] == k);
                }
            }
            assert(!keys.contains(k));
        }
    }
}

/// Every destination of `post` has received exactly the given payloads
/// beyond what it had in `pre`, in order.
pub open spec fn delivered_all<D: EventDestination>(
    pre: Seq<D>,
    post: Seq<D>,
    payloads: Seq<Seq<char>>,
) -> bool {
    &&& post.len() == pre.len()
    &&& forall|i: int|
        0 <= i < pre.len() ==> #[trigger] post[i].received() == pre[i].received() + payloads
}

/// The broadcast fabric: a keyed registry of destinations. Keys are minted
/// from a counter that never repeats, so a removed key never comes back.
pub struct EventSink<D: EventDestination> {
    keys: Vec<u64>,
    dests: Vec<D>,
    next_key: u64,
}

impl<D: EventDestination> EventSink<D> {
    /// The keys of the registered destinations, in registration order.
    pub closed spec fn keys(&self) -> Seq<u64> {
        self.keys@
    }

    /// The registered destinations, in registration order.
    pub closed spec fn dests(&self) -> Seq<D> {
        self.dests@
    }

    /// The next key to be minted.
    pub closed spec fn next_key_val(&self) -> u64 {
        self.next_key
    }

    /// One destination per key, keys strictly increasing and below the
    /// counter.
    pub open spec fn wf(&self) -> bool {
        &&& self.keys().len() == self.dests().len()
        &&& forall|i: int, j: int|
            0 <= i < j < self.keys().len() ==> #[trigger] self.keys()[i] < #[trigger] self.keys()[j]
        &&& forall|i: int|
            0 <= i < self.keys().len() ==> #[trigger] self.keys()[i] < self.next_key_val()
    }

    /// A registry with no destinations.
    pub fn empty() -> (r: EventSink<D>)
        ensures
            r.wf(),
            r.keys() =~= Seq::<u64>::empty(),
            r.dests() =~= Seq::<D>::empty(),
            r.next_key_val() == 0,
    {
        EventSink { keys: Vec::new(), dests: Vec::new(), next_key: 0 }
    }

    /// Registers a destination and hands back a fresh key — one that was
    /// never issued before. Always succeeds.
    pub fn add_destination(&mut self, destination: D) -> (key: DestinationKey)
        requires
            old(self).wf(),
            old(self).next_key_val() < u64::MAX,
        ensures
            final(self).wf(),
            key.0 == old(self).next_key_val(),
            !old(self).keys().contains(key.0),
            final(self).keys() =~= old(self).keys().push(key.0),
            final(self).dests() =~= old(self).dests().push(destination),
            final(self).next_key_val() == old(self).next_key_val() + 1,
    {
        let key = self.next_key;
        self.keys.push(key);
        self.dests.push(destination);
        self.next_key = self.next_key + 1;
        proof {
            if old(self).keys().contains(key) {
                let i = choose|i: int|
                    0 <= i < old(self).keys().len() && old(self).keys()[i] == key;
                assert(old(self).keys()[i] < key);
            }
        }
        DestinationKey(key)
    }

    /// Removes the destination under a key and returns it. Removing a key
    /// that is absent — for instance, already removed — returns nothing and
    /// changes nothing.
    pub fn remove_destination(&mut self, key: DestinationKey) -> (r: Option<D>)
        requires
            old(self).wf(),
        ensures
            final(self).wf(),
            final(self).next_key_val() == old(self).next_key_val(),
            r is Some <==> old(self).keys().contains(key.0),
            !final(self).keys().contains(key.0),
            match r {
                Some(d) => {
                    let i = key_index(old(self).keys(), key.0);
                    &&& 0 <= i < old(self).keys().len()
                    &&& d == old(self).dests()[i]
                    &&& final(self).keys() =~= old(self).keys().remove(i)
                    &&& final(self).dests() =~= old(self).dests().remove(i)
                },
                None => *final(self) == *old(self),
            },
    {
        let ghost gkeys = self.keys@;
        let mut i: usize = 0;
        while i < self.keys.len()
            invariant
                0 <= i <= gkeys.len(),
                old(self).wf(),
                self == old(self),
                self.keys@ == gkeys,
                gkeys == old(self).keys@,
                forall|j: int| 0 <= j < i ==> #[trigger] gkeys[j] != key.0,
            decreases gkeys.len() - i,
        {
            if self.keys[i] == key.0 {
                proof {
                    lemma_key_index(gkeys, key.0);
                    assert(key_index(gkeys, key.0) == i) by {
                        let ki = key_index(gkeys, key.0);
                        if ki < i {
                            assert(gkeys[ki] != key.0);
                        }
                    }
                    assert(gkeys.contains(key.0));
                    assert(self.dests@.len() == gkeys.len());
                }
                self.keys.remove(i);
                let d = self.dests.remove(i);
                proof {
                    assert(self.keys@ =~= gkeys.remove(i as int));
                    assert(self.dests@ =~= old(self).dests@.remove(i as int));
                    assert(forall|a: int|
                        0 <= a < self.keys@.len() ==> #[trigger] self.keys@[a] == (if a < i {
                            gkeys[a]
                        } else {
                            gkeys[a + 1]
                        }));
                    assert forall|a: int, b: int|
                        0 <= a < b < self.keys@.len() implies #[trigger] self.keys@[a]
                        < #[trigger] self.keys@[b] by {
                        let a0: int = if a < i { a } else { a + 1 };
                        let b0: int = if b < i { b } else { b + 1 };
                        assert(self.keys@[a] == gkeys[a0]);
                        assert(self.keys@[b] == gkeys[b0]);
                        assert(gkeys[a0] < gkeys[b0]);
                    }
                    assert forall|a: int|
                        0 <= a < self.keys@.len() implies #[trigger] self.keys@[a]
                        < self.next_key by {
                        let a0: int = if a < i { a } else { a + 1 };
                        assert(self.keys@[a] == gkeys[a0]);
                    }
                    assert forall|a: int|
                        0 <= a < self.keys@.len() implies #[trigger] self.keys@[a] != key.0 by {
                        let a0: int = if a < i { a } else { a + 1 };
                        assert(self.keys@[a] == gkeys[a0]);
                        if a0 > i {
                            assert(gkeys[i as int] < gkeys[a0]);
                        }
                    }
                    assert(!self.keys@.contains(key.0));
                }
                return Some(d);
            }
            i += 1;
        }
        proof {
            lemma_key_index(gkeys, key.0);
            assert(key_index(gkeys, key.0) == gkeys.len()) by {
                let ki = key_index(gkeys, key.0);
                if ki < gkeys.len() {
                    assert(gkeys[ki] == key.0);
                }
            }
        }
        None
    }

    /// Serializes the event once and delivers that payload to every
    /// destination registered at the start of the call, each exactly once.
    pub fn broadcast(&mut self, event: &Event)
        requires
            old(self).wf(),
        ensures
            final(self).wf(),
            final(self).keys() =~= old(self).keys(),
            final(self).next_key_val() == old(self).next_key_val(),
            delivered_all(old(self).dests(), final(self).dests(), seq![event_json(*event)]),
    {
        let payload = Payload { json: event_to_json(event) };
        let mut i: usize = 0;
        while i < self.dests.len()
            invariant
                0 <= i <= self.dests@.len(),
                payload.json@ == event_json(*event),
                self.keys@ == old(self).keys@,
                self.next_key == old(self).next_key,
                self.dests@.len() == old(self).dests@.len(),
                forall|j: int|
                    0 <= j < i ==> #[trigger] self.dests@[j].received() == old(
                        self,
                    ).dests@[j].received().push(payload.json@),
                forall|j: int|
                    i <= j < self.dests@.len() ==> #[trigger] self.dests@[j] == old(
                        self,
                    ).dests@[j],
            decreases self.dests@.len() - i,
        {
            let d = &mut self.dests[i];
            d.send_event(&payload);
            i += 1;
        }
        proof {
            assert forall|j: int| 0 <= j < old(self).dests().len() implies #[trigger] self.dests()[j].received()
                == old(self).dests()[j].received() + seq![event_json(*event)] by {
                assert(self.dests@[j].received() =~= old(self).dests@[j].received() + seq![
                    event_json(*event),
                ]);
            }
        }
    }
}

} // verus!
