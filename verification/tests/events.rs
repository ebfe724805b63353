use jukebox::events::{Event, EventCollector, EventSink, event_to_json};
use jukebox::model::{ExternalTrackId, TrackId};
use jukebox::queue::{CurrentTrack, EnqueuedTrack, EntryMarker};
use jukebox::services::ServiceId;

#[test]
fn removed_destination_receives_no_later_broadcasts() {
    let mut sink: EventSink<EventCollector> = EventSink::empty();
    let first = sink.add_destination(EventCollector::new());
    let second = sink.add_destination(EventCollector::new());
    sink.broadcast(&Event::VolumeChanged { muted: false, volume: 300 });
    let removed = sink.remove_destination(first).unwrap();
    assert_eq!(removed.payloads().len(), 1);
    sink.broadcast(&Event::VolumeChanged { muted: true, volume: 300 });
    // removing an already-removed key returns nothing, without error
    assert!(sink.remove_destination(first).is_none());
    let survivor = sink.remove_destination(second).unwrap();
    assert_eq!(survivor.payloads().len(), 2);
}

#[test]
fn destination_keys_are_never_reissued() {
    let mut sink: EventSink<EventCollector> = EventSink::empty();
    let a = sink.add_destination(EventCollector::new());
    let b = sink.add_destination(EventCollector::new());
    sink.remove_destination(a).unwrap();
    let c = sink.add_destination(EventCollector::new());
    assert_ne!(a, b);
    assert_ne!(a, c);
    assert_ne!(b, c);
}

#[test]
fn every_registered_destination_gets_each_broadcast_once() {
    let mut sink: EventSink<EventCollector> = EventSink::empty();
    let keys = [
        sink.add_destination(EventCollector::new()),
        sink.add_destination(EventCollector::new()),
        sink.add_destination(EventCollector::new()),
    ];
    sink.broadcast(&Event::VolumeChanged { muted: false, volume: 1 });
    sink.broadcast(&Event::VolumeChanged { muted: false, volume: 2 });
    for key in keys {
        let collector = sink.remove_destination(key).unwrap();
        let got = collector.payloads();
        assert_eq!(got.len(), 2);
        assert_eq!(
            got[0].json,
            "{\"type\":\"VolumeChanged\",\"args\":{\"muted\":false,\"volume\":1}}"
        );
        assert_eq!(
            got[1].json,
            "{\"type\":\"VolumeChanged\",\"args\":{\"muted\":false,\"volume\":2}}"
        );
    }
}

#[test]
fn volume_event_serialization() {
    let text = event_to_json(&Event::VolumeChanged { muted: true, volume: 750 });
    assert_eq!(
        text,
        "{\"type\":\"VolumeChanged\",\"args\":{\"muted\":true,\"volume\":750}}"
    );
}

#[test]
fn playback_event_serialization_escapes_identities() {
    let event = Event::PlaybackChanged {
        paused: true,
        current_track: Some(CurrentTrack {
            track: EnqueuedTrack {
                id: TrackId::External(ExternalTrackId {
                    service_id: ServiceId("svc".to_string()),
                    track_id: "a\"b\\c".to_string(),
                }),
                duration_millis: 65000,
                entry_marker: EntryMarker(12),
            },
            position_millis: 1500,
        }),
    };
    assert_eq!(
        event_to_json(&event),
        "{\"type\":\"PlaybackChanged\",\"args\":{\"paused\":true,\"current_track\":\
         {\"track\":{\"id\":\"svc:a\\\"b\\\\c\",\"duration_millis\":65000,\
         \"entry_marker\":\"12\"},\"position_millis\":1500}}}"
    );
}
