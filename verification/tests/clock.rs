use midi_playback::clock::EventKind;
use midi_playback::clock::PlaybackClock;
use midi_playback::clock::TimedEvent;
use midi_playback::clock::scaled_elapsed;

fn ev(timestamp: u64, channel: u8, kind: EventKind) -> TimedEvent {
    TimedEvent { timestamp, channel, kind }
}

fn demo_events() -> Vec<TimedEvent> {
    vec![
        ev(0, 0, EventKind::NoteOn { key: 60 }),
        ev(10, 0, EventKind::NoteOn { key: 62 }),
        ev(20, 0, EventKind::NoteOff { key: 60 }),
    ]
}

#[test]
fn new_clock_starts_at_zero_unpaused() {
    let events = demo_events();
    let clock = PlaybackClock::new(0, &events);
    assert_eq!(clock.time(), 0);
    assert!(!clock.is_paused());
    assert_eq!(clock.length(), 20);
}

#[test]
fn length_of_empty_sequence_is_the_lead_in() {
    let events: Vec<TimedEvent> = Vec::new();
    let clock = PlaybackClock::new(7, &events);
    assert_eq!(clock.length(), 7);
    assert_eq!(clock.lead_in(), 7);
}

#[test]
fn length_counts_the_lead_in() {
    let events = demo_events();
    let clock = PlaybackClock::new(5, &events);
    assert_eq!(clock.length(), 25);
}

#[test]
fn advance_delivers_crossed_events_in_order() {
    let events = demo_events();
    let mut clock = PlaybackClock::new(0, &events);
    let crossed = clock.advance(&events, 15);
    assert_eq!(clock.time(), 15);
    assert_eq!(crossed, vec![events[0], events[1]]);
    let crossed = clock.advance(&events, 10);
    assert_eq!(clock.time(), 25);
    assert_eq!(crossed, vec![events[2]]);
    let crossed = clock.advance(&events, 100);
    assert_eq!(crossed, Vec::new());
}

#[test]
fn advance_by_zero_delivers_nothing() {
    let events = demo_events();
    let mut clock = PlaybackClock::new(0, &events);
    let crossed = clock.advance(&events, 0);
    assert_eq!(crossed, Vec::new());
    assert_eq!(clock.time(), 0);
}

#[test]
fn event_at_the_new_position_is_not_delivered_early() {
    let events = vec![ev(10, 0, EventKind::Other)];
    let mut clock = PlaybackClock::new(0, &events);
    let crossed = clock.advance(&events, 10);
    assert_eq!(crossed, Vec::new());
    let crossed = clock.advance(&events, 1);
    assert_eq!(crossed, vec![events[0]]);
}

#[test]
fn paused_advance_changes_nothing() {
    let events = demo_events();
    let mut clock = PlaybackClock::new(0, &events);
    clock.pause();
    assert!(clock.is_paused());
    for _ in 0..3 {
        let crossed = clock.advance(&events, 1000);
        assert_eq!(crossed, Vec::new());
        assert_eq!(clock.time(), 0);
    }
    clock.resume();
    assert!(!clock.is_paused());
    let crossed = clock.advance(&events, 15);
    assert_eq!(clock.time(), 15);
    assert_eq!(crossed, vec![events[0], events[1]]);
}

#[test]
fn seek_then_flush_delivers_nothing() {
    let events = demo_events();
    let mut clock = PlaybackClock::new(0, &events);
    clock.seek(&events, 15);
    assert_eq!(clock.time(), 15);
    let flushed = clock.advance(&events, 0);
    assert_eq!(flushed, Vec::new());
    let crossed = clock.advance(&events, 10);
    assert_eq!(crossed, vec![events[2]]);
}

#[test]
fn seek_backward_replays_events() {
    let events = demo_events();
    let mut clock = PlaybackClock::new(0, &events);
    let crossed = clock.advance(&events, 50);
    assert_eq!(crossed.len(), 3);
    clock.seek(&events, 0);
    assert_eq!(clock.time(), 0);
    let flushed = clock.advance(&events, 0);
    assert_eq!(flushed, Vec::new());
    let crossed = clock.advance(&events, 15);
    assert_eq!(crossed, vec![events[0], events[1]]);
}

#[test]
fn rewind_saturates_at_zero() {
    let events = demo_events();
    let mut clock = PlaybackClock::new(0, &events);
    clock.advance(&events, 10);
    clock.rewind(&events, -50);
    assert_eq!(clock.time(), 0);
}

#[test]
fn rewind_by_the_smallest_delta_saturates_at_zero() {
    let events = demo_events();
    let mut clock = PlaybackClock::new(0, &events);
    clock.advance(&events, 10);
    clock.rewind(&events, i64::MIN);
    assert_eq!(clock.time(), 0);
}

#[test]
fn rewind_forward_moves_the_position() {
    let events = demo_events();
    let mut clock = PlaybackClock::new(0, &events);
    clock.rewind(&events, 12);
    assert_eq!(clock.time(), 12);
    clock.rewind(&events, -2);
    assert_eq!(clock.time(), 10);
}

#[test]
fn rewind_repositions_the_cursor() {
    let events = demo_events();
    let mut clock = PlaybackClock::new(0, &events);
    clock.advance(&events, 50);
    clock.rewind(&events, -45);
    assert_eq!(clock.time(), 5);
    let crossed = clock.advance(&events, 10);
    assert_eq!(crossed, vec![events[1]]);
}

#[test]
fn lead_in_delays_the_first_event() {
    let events = vec![ev(0, 0, EventKind::NoteOn { key: 60 })];
    let mut clock = PlaybackClock::new(5, &events);
    let crossed = clock.advance(&events, 5);
    assert_eq!(crossed, Vec::new());
    let crossed = clock.advance(&events, 1);
    assert_eq!(crossed, vec![events[0]]);
}

#[test]
fn equal_offsets_are_delivered_together_in_order() {
    let events = vec![
        ev(10, 0, EventKind::NoteOn { key: 60 }),
        ev(10, 0, EventKind::NoteOn { key: 64 }),
    ];
    let mut clock = PlaybackClock::new(0, &events);
    let crossed = clock.advance(&events, 11);
    assert_eq!(crossed, vec![events[0], events[1]]);
}

#[test]
fn scaled_elapsed_quantizes_to_coarse_buckets() {
    assert_eq!(scaled_elapsed(16_000_000, 10), 16_000_000);
    assert_eq!(scaled_elapsed(16_000_000, 15), 24_000_000);
    assert_eq!(scaled_elapsed(16_000_000, 5), 8_000_000);
    assert_eq!(scaled_elapsed(25, 20), 40);
    assert_eq!(scaled_elapsed(7, 10), 0);
    assert_eq!(scaled_elapsed(0, 10), 0);
}
