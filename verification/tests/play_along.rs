use midi_playback::clock::EventKind;
use midi_playback::clock::TimedEvent;
use midi_playback::play_along::KeyPressSource;
use midi_playback::play_along::KeyboardRange;
use midi_playback::play_along::LEEWAY_NANOS;
use midi_playback::play_along::PlayAlong;
use midi_playback::play_along::UserPress;

fn engine() -> PlayAlong {
    PlayAlong::new(KeyboardRange::new(21, 108))
}

#[test]
fn new_engine_owes_nothing() {
    let pa = engine();
    assert!(pa.are_required_keys_pressed());
    assert_eq!(pa.required_notes, Vec::new());
    assert_eq!(pa.user_pressed_recently, Vec::new());
}

#[test]
fn early_press_satisfies_the_note_and_is_consumed() {
    let mut pa = engine();
    pa.press_key(KeyPressSource::User, 60, true, 0);
    assert_eq!(pa.user_pressed_recently, vec![UserPress { timestamp: 0, note_id: 60 }]);
    pa.press_key(KeyPressSource::File, 60, true, 100);
    assert!(!pa.required_notes.contains(&60));
    assert!(pa.are_required_keys_pressed());
    assert_eq!(pa.user_pressed_recently, Vec::new());
}

#[test]
fn consumed_press_cannot_satisfy_a_second_occurrence() {
    let mut pa = engine();
    pa.press_key(KeyPressSource::User, 60, true, 0);
    pa.press_key(KeyPressSource::File, 60, true, 100);
    pa.press_key(KeyPressSource::File, 60, true, 200);
    assert_eq!(pa.required_notes, vec![60]);
    assert!(!pa.are_required_keys_pressed());
}

#[test]
fn late_press_settles_the_requirement() {
    let mut pa = engine();
    pa.press_key(KeyPressSource::File, 60, true, 0);
    assert_eq!(pa.required_notes, vec![60]);
    assert!(!pa.are_required_keys_pressed());
    pa.press_key(KeyPressSource::User, 60, true, 100);
    assert_eq!(pa.required_notes, Vec::new());
    assert!(pa.are_required_keys_pressed());
}

#[test]
fn expired_press_no_longer_satisfies() {
    let mut pa = engine();
    pa.press_key(KeyPressSource::User, 60, true, 0);
    pa.update(LEEWAY_NANOS + 1);
    assert_eq!(pa.user_pressed_recently, Vec::new());
    pa.press_key(KeyPressSource::File, 60, true, LEEWAY_NANOS + 2);
    assert_eq!(pa.required_notes, vec![60]);
}

#[test]
fn press_at_the_window_edge_still_counts() {
    let mut pa = engine();
    pa.press_key(KeyPressSource::User, 60, true, 0);
    pa.update(LEEWAY_NANOS);
    assert_eq!(pa.user_pressed_recently.len(), 1);
    pa.press_key(KeyPressSource::File, 60, true, LEEWAY_NANOS);
    assert!(pa.are_required_keys_pressed());
    assert_eq!(pa.user_pressed_recently, Vec::new());
}

#[test]
fn expiry_sweeps_only_expired_presses() {
    let mut pa = engine();
    pa.press_key(KeyPressSource::User, 60, true, 0);
    pa.press_key(KeyPressSource::User, 62, true, 100_000_000);
    pa.update(LEEWAY_NANOS + 50_000_000);
    assert_eq!(
        pa.user_pressed_recently,
        vec![UserPress { timestamp: 100_000_000, note_id: 62 }]
    );
}

#[test]
fn notes_outside_the_keyboard_range_are_ignored() {
    let mut pa = engine();
    pa.press_key(KeyPressSource::User, 5, true, 0);
    pa.press_key(KeyPressSource::File, 110, true, 0);
    pa.press_key(KeyPressSource::File, 5, false, 0);
    assert_eq!(pa.required_notes, Vec::new());
    assert_eq!(pa.user_pressed_recently, Vec::new());
    assert!(pa.are_required_keys_pressed());
}

#[test]
fn note_off_clears_the_requirement() {
    let mut pa = engine();
    pa.press_key(KeyPressSource::File, 60, true, 0);
    assert_eq!(pa.required_notes, vec![60]);
    pa.press_key(KeyPressSource::File, 60, false, 100);
    assert_eq!(pa.required_notes, Vec::new());
    assert!(pa.are_required_keys_pressed());
}

#[test]
fn note_off_without_a_requirement_is_harmless() {
    let mut pa = engine();
    pa.press_key(KeyPressSource::File, 60, false, 0);
    assert_eq!(pa.required_notes, Vec::new());
    assert_eq!(pa.user_pressed_recently, Vec::new());
}

#[test]
fn user_key_release_is_a_no_op() {
    let mut pa = engine();
    pa.press_key(KeyPressSource::User, 60, false, 0);
    assert_eq!(pa.user_pressed_recently, Vec::new());
    assert_eq!(pa.required_notes, Vec::new());
}

#[test]
fn the_earliest_matching_press_is_consumed() {
    let mut pa = engine();
    pa.press_key(KeyPressSource::User, 60, true, 10);
    pa.press_key(KeyPressSource::User, 60, true, 20);
    pa.press_key(KeyPressSource::File, 60, true, 30);
    assert_eq!(pa.user_pressed_recently, vec![UserPress { timestamp: 20, note_id: 60 }]);
}

#[test]
fn a_press_satisfies_only_its_own_note() {
    let mut pa = engine();
    pa.press_key(KeyPressSource::User, 62, true, 0);
    pa.press_key(KeyPressSource::File, 60, true, 10);
    assert_eq!(pa.required_notes, vec![60]);
    assert_eq!(pa.user_pressed_recently, vec![UserPress { timestamp: 0, note_id: 62 }]);
}

#[test]
fn duplicate_file_note_on_is_owed_once() {
    let mut pa = engine();
    pa.press_key(KeyPressSource::File, 60, true, 0);
    pa.press_key(KeyPressSource::File, 60, true, 10);
    assert_eq!(pa.required_notes, vec![60]);
    pa.press_key(KeyPressSource::User, 60, true, 20);
    assert!(pa.are_required_keys_pressed());
}

#[test]
fn feed_file_events_tracks_note_events() {
    let mut pa = engine();
    let events = vec![
        TimedEvent { timestamp: 0, channel: 0, kind: EventKind::NoteOn { key: 60 } },
        TimedEvent { timestamp: 5, channel: 0, kind: EventKind::Other },
        TimedEvent { timestamp: 10, channel: 0, kind: EventKind::NoteOn { key: 62 } },
        TimedEvent { timestamp: 20, channel: 0, kind: EventKind::NoteOff { key: 60 } },
    ];
    pa.feed_file_events(&events);
    assert_eq!(pa.required_notes, vec![62]);
}

#[test]
fn feed_file_events_skips_percussion() {
    let mut pa = engine();
    let events = vec![
        TimedEvent { timestamp: 0, channel: 9, kind: EventKind::NoteOn { key: 60 } },
        TimedEvent { timestamp: 0, channel: 0, kind: EventKind::NoteOn { key: 62 } },
    ];
    pa.feed_file_events(&events);
    assert_eq!(pa.required_notes, vec![62]);
}

#[test]
fn feed_file_events_consumes_queued_presses() {
    let mut pa = engine();
    pa.press_key(KeyPressSource::User, 60, true, 0);
    let events = vec![
        TimedEvent { timestamp: 0, channel: 0, kind: EventKind::NoteOn { key: 60 } },
    ];
    pa.feed_file_events(&events);
    assert!(pa.are_required_keys_pressed());
    assert_eq!(pa.user_pressed_recently, Vec::new());
}

#[test]
fn keyboard_range_is_inclusive() {
    let range = KeyboardRange::new(21, 108);
    assert!(range.contains(21));
    assert!(range.contains(108));
    assert!(range.contains(60));
    assert!(!range.contains(20));
    assert!(!range.contains(109));
}
