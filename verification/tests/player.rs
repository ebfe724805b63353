use jukebox::audio::{AudioFormat, DecodedAudio};
use jukebox::events::{EventCollector, EventSink, Payload};
use jukebox::model::{LibraryTrackId, TrackId};
use jukebox::player::{EnqueueError, PlayerApp};

fn fmt() -> AudioFormat {
    AudioFormat { channels: 1, sample_rate: 1000 }
}

fn track(samples: Vec<i32>) -> DecodedAudio {
    DecodedAudio { channels: 1, sample_rate: 1000, samples }
}

fn tid(n: i64) -> TrackId {
    TrackId::Library(LibraryTrackId(n))
}

/// A player with one registered collector; the caller pulls the collector
/// back out at the end to inspect what was broadcast.
fn player_with_collector() -> (PlayerApp<EventCollector>, jukebox::events::DestinationKey) {
    let mut sink = EventSink::empty();
    let key = sink.add_destination(EventCollector::new());
    (PlayerApp::new(sink, fmt()), key)
}

fn payloads(
    player: &mut PlayerApp<EventCollector>,
    key: jukebox::events::DestinationKey,
) -> Vec<Payload> {
    let collector = player.event_sink.remove_destination(key).unwrap();
    collector.payloads().clone()
}

#[test]
fn enqueue_into_empty_queue_raises_exactly_one_event() {
    let (mut player, key) = player_with_collector();
    player
        .add_to_queue(tid(7), 1000, track(vec![1, 2, 3]))
        .unwrap();
    let events = payloads(&mut player, key);
    assert_eq!(events.len(), 1);
    assert_eq!(
        events[0].json,
        "{\"type\":\"PlaybackChanged\",\"args\":{\"paused\":false,\"current_track\":\
         {\"track\":{\"id\":\"7\",\"duration_millis\":1000,\"entry_marker\":\"0\"},\
         \"position_millis\":0}}}"
    );
}

#[test]
fn enqueue_into_nonempty_queue_raises_no_event() {
    let (mut player, key) = player_with_collector();
    player.add_to_queue(tid(1), 500, track(vec![1])).unwrap();
    player.add_to_queue(tid(2), 500, track(vec![2])).unwrap();
    player.add_to_queue(tid(3), 500, track(vec![3])).unwrap();
    let events = payloads(&mut player, key);
    assert_eq!(events.len(), 1);
}

#[test]
fn natural_end_of_track_raises_exactly_one_event() {
    let (mut player, key) = player_with_collector();
    player.update_volume(Some(1000), None);
    player.add_to_queue(tid(1), 2, track(vec![8, 9])).unwrap();
    assert_eq!(player.next_sample(), 8);
    assert_eq!(player.next_sample(), 9);
    // the track is exhausted; the next pull pops it and announces the change
    assert_eq!(player.next_sample(), 0);
    let events = payloads(&mut player, key);
    // one volume change, one enqueue transition, one exhaustion transition
    assert_eq!(events.len(), 3);
    assert_eq!(
        events[2].json,
        "{\"type\":\"PlaybackChanged\",\"args\":{\"paused\":false,\"current_track\":null}}"
    );
}

#[test]
fn pause_freezes_position() {
    let (mut player, _key) = player_with_collector();
    player.update_volume(Some(1000), None);
    player
        .add_to_queue(tid(1), 10, track(vec![10, 20, 30, 40, 50, 60, 70, 80, 90, 100]))
        .unwrap();
    assert_eq!(player.next_sample(), 10);
    assert_eq!(player.next_sample(), 20);
    assert_eq!(player.next_sample(), 30);
    player.pause();
    for _ in 0..5 {
        assert_eq!(player.next_sample(), 0);
    }
    let state = player.playback_state();
    assert_eq!(state.current_track.unwrap().position_millis, 3);
    player.unpause();
    // the next real sample is the fourth, not the ninth
    assert_eq!(player.next_sample(), 40);
}

#[test]
fn mute_hides_audio_but_not_time() {
    let (mut player, key) = player_with_collector();
    player
        .add_to_queue(tid(1), 4, track(vec![10, 20, 30, 40]))
        .unwrap();
    player.update_volume(None, Some(true));
    for _ in 0..4 {
        assert_eq!(player.next_sample(), 0);
    }
    let state = player.playback_state();
    assert_eq!(state.current_track.unwrap().position_millis, 4);
    // one more pull crosses the end of the track even though muted
    assert_eq!(player.next_sample(), 0);
    assert!(player.playback_state().current_track.is_none());
    let events = payloads(&mut player, key);
    // enqueue transition, volume change, exhaustion transition
    assert_eq!(events.len(), 3);
    assert_eq!(
        events[2].json,
        "{\"type\":\"PlaybackChanged\",\"args\":{\"paused\":false,\"current_track\":null}}"
    );
}

#[test]
fn volume_scales_every_sample() {
    let (mut player, _key) = player_with_collector();
    player
        .add_to_queue(tid(1), 4, track(vec![100, -100, 7, 0]))
        .unwrap();
    // the default volume is half amplitude
    assert_eq!(player.unmuted_volume(), 500);
    assert_eq!(player.next_sample(), 50);
    assert_eq!(player.next_sample(), -50);
    assert_eq!(player.next_sample(), 3);
    assert_eq!(player.next_sample(), 0);
}

#[test]
fn entry_markers_stay_unique_across_cycles() {
    let (mut player, _key) = player_with_collector();
    let m1 = player.add_to_queue(tid(1), 1, track(vec![1])).unwrap();
    let m2 = player.add_to_queue(tid(2), 1, track(vec![2])).unwrap();
    assert!(player.queue.remove(m1));
    assert!(!player.queue.remove(m1));
    let m3 = player.add_to_queue(tid(3), 1, track(vec![3])).unwrap();
    assert_ne!(m1, m2);
    assert_ne!(m1, m3);
    assert_ne!(m2, m3);
    assert_eq!(m1.0, 0);
    assert_eq!(m2.0, 1);
    assert_eq!(m3.0, 2);
}

#[test]
fn skip_raises_event_even_on_empty_queue() {
    let (mut player, key) = player_with_collector();
    player.skip_to_next();
    let events = payloads(&mut player, key);
    assert_eq!(events.len(), 1);
    assert_eq!(
        events[0].json,
        "{\"type\":\"PlaybackChanged\",\"args\":{\"paused\":false,\"current_track\":null}}"
    );
}

#[test]
fn clear_is_silent_on_empty_queue() {
    let (mut player, key) = player_with_collector();
    player.empty_queue();
    player.add_to_queue(tid(1), 1, track(vec![1])).unwrap();
    player.empty_queue();
    player.empty_queue();
    let events = payloads(&mut player, key);
    // enqueue transition, then exactly one for the clear that lost a head
    assert_eq!(events.len(), 2);
}

#[test]
fn pause_and_unpause_are_silent_when_nothing_changes() {
    let (mut player, key) = player_with_collector();
    player.unpause();
    player.pause();
    player.pause();
    player.unpause();
    player.unpause();
    let events = payloads(&mut player, key);
    assert_eq!(events.len(), 2);
}

#[test]
fn update_volume_always_broadcasts() {
    let (mut player, key) = player_with_collector();
    player.update_volume(None, None);
    player.update_volume(Some(250), Some(true));
    assert_eq!(player.unmuted_volume(), 250);
    assert!(player.muted());
    assert!(!player.paused());
    let events = payloads(&mut player, key);
    assert_eq!(events.len(), 2);
    assert_eq!(
        events[0].json,
        "{\"type\":\"VolumeChanged\",\"args\":{\"muted\":false,\"volume\":500}}"
    );
    assert_eq!(
        events[1].json,
        "{\"type\":\"VolumeChanged\",\"args\":{\"muted\":true,\"volume\":250}}"
    );
}

#[test]
fn enqueue_next_goes_after_the_head() {
    let (mut player, _key) = player_with_collector();
    player.update_volume(Some(1000), None);
    player.add_to_queue(tid(1), 1, track(vec![1])).unwrap();
    player.add_to_queue(tid(2), 1, track(vec![2])).unwrap();
    let PlayerApp { queue, event_sink } = &mut player;
    queue.enqueue_next(tid(3), 1, track(vec![3]), event_sink);
    assert_eq!(player.next_sample(), 1);
    assert_eq!(player.next_sample(), 3);
    assert_eq!(player.next_sample(), 2);
}

#[test]
fn enqueue_rejects_malformed_sources() {
    let (mut player, _key) = player_with_collector();
    let no_channels = DecodedAudio { channels: 0, sample_rate: 1000, samples: vec![] };
    assert_eq!(
        player.add_to_queue(tid(1), 1, no_channels),
        Err(EnqueueError::UnsupportedSource)
    );
    let ragged = DecodedAudio { channels: 2, sample_rate: 1000, samples: vec![1, 2, 3] };
    assert_eq!(
        player.add_to_queue(tid(1), 1, ragged),
        Err(EnqueueError::UnsupportedSource)
    );
    assert!(player.playback_state().current_track.is_none());
}

#[test]
fn enqueue_rejects_overlong_adaptations() {
    let mut sink: EventSink<EventCollector> = EventSink::empty();
    let _ = sink.add_destination(EventCollector::new());
    // one input frame per second, adapted up to the maximum output rate:
    // a modest source becomes more samples than the queue accepts
    let mut player = PlayerApp::new(sink, AudioFormat { channels: 2, sample_rate: u32::MAX });
    let slow = DecodedAudio { channels: 1, sample_rate: 1, samples: vec![0; 1 << 20] };
    assert_eq!(
        player.add_to_queue(tid(1), 1, slow),
        Err(EnqueueError::TrackTooLong)
    );
}

#[test]
fn empty_queue_yields_silence_without_events() {
    let (mut player, key) = player_with_collector();
    for _ in 0..8 {
        assert_eq!(player.next_sample(), 0);
    }
    assert!(payloads(&mut player, key).is_empty());
}

#[test]
fn enqueue_next_into_empty_queue_raises_one_event() {
    let (mut player, key) = player_with_collector();
    let PlayerApp { queue, event_sink } = &mut player;
    queue.enqueue_next(tid(5), 1, track(vec![5]), event_sink);
    let events = payloads(&mut player, key);
    assert_eq!(events.len(), 1);
}

#[test]
fn position_counts_whole_output_frames() {
    // stereo output at 1000 frames per second: 2000 samples per second
    let mut sink: EventSink<EventCollector> = EventSink::empty();
    let _ = sink.add_destination(EventCollector::new());
    let mut player = PlayerApp::new(sink, AudioFormat { channels: 2, sample_rate: 1000 });
    let stereo = DecodedAudio {
        channels: 2,
        sample_rate: 1000,
        samples: vec![1, 1, 2, 2, 3, 3, 4, 4, 5, 5, 6, 6],
    };
    player.add_to_queue(tid(1), 6, stereo).unwrap();
    for _ in 0..6 {
        player.next_sample();
    }
    // six samples at two channels are three frames: three milliseconds
    let state = player.playback_state();
    assert_eq!(state.current_track.unwrap().position_millis, 3);
}

#[test]
fn removing_the_playing_head_moves_on() {
    let (mut player, _key) = player_with_collector();
    player.update_volume(Some(1000), None);
    let m1 = player.add_to_queue(tid(1), 1, track(vec![11, 12])).unwrap();
    let m2 = player.add_to_queue(tid(2), 1, track(vec![21, 22])).unwrap();
    assert_eq!(player.next_sample(), 11);
    assert!(player.queue.remove(m1));
    assert_eq!(player.next_sample(), 21);
    assert!(player.queue.remove(m2));
    assert_eq!(player.next_sample(), 0);
}

#[test]
fn playback_state_snapshot() {
    let (mut player, _key) = player_with_collector();
    let state = player.playback_state();
    assert!(!state.muted);
    assert!(!state.paused);
    assert_eq!(state.volume, 500);
    assert!(state.current_track.is_none());
    player
        .add_to_queue(tid(9), 1234, track(vec![1, 2]))
        .unwrap();
    let state = player.playback_state();
    let current = state.current_track.unwrap();
    assert_eq!(current.track.duration_millis, 1234);
    assert_eq!(current.track.entry_marker.0, 0);
    assert_eq!(current.position_millis, 0);
}
