use clack::bank::{KeySoundIds, SoundBank};
use clack::tap::{
    now_ns, sound_for_key, tap_disabled, KeyTracker, TapAction, EVENT_FLAGS_CHANGED,
    EVENT_KEY_DOWN, EVENT_KEY_UP, RAPID_WINDOW_NS, TAP_DISABLED_BY_TIMEOUT,
    TAP_DISABLED_BY_USER_INPUT,
};

const PLAY_DOWN: TapAction = TapAction::Play { key_down: true };
const PLAY_UP: TapAction = TapAction::Play { key_down: false };

#[test]
fn key_repeat_plays_once() {
    let mut t = KeyTracker::new();
    assert_eq!(t.step(EVENT_KEY_DOWN, 0, false, false, 0), PLAY_DOWN);
    assert_eq!(t.step(EVENT_KEY_DOWN, 0, false, false, 0), TapAction::Pass);
    assert_eq!(t.step(EVENT_KEY_DOWN, 0, false, false, 0), TapAction::Pass);
    assert_eq!(t.step(EVENT_KEY_UP, 0, false, false, 0), PLAY_UP);
    // Released, so the next press plays again.
    assert_eq!(t.step(EVENT_KEY_DOWN, 0, false, false, 0), PLAY_DOWN);
}

#[test]
fn keys_are_tracked_separately() {
    let mut t = KeyTracker::new();
    assert_eq!(t.step(EVENT_KEY_DOWN, 1, false, false, 0), PLAY_DOWN);
    assert_eq!(t.step(EVENT_KEY_DOWN, 2, false, false, 0), PLAY_DOWN);
    assert_eq!(t.step(EVENT_KEY_UP, 1, false, false, 0), PLAY_UP);
    assert_eq!(t.step(EVENT_KEY_DOWN, 2, false, false, 0), TapAction::Pass);
}

#[test]
fn key_up_of_an_unheld_key_still_plays() {
    let mut t = KeyTracker::new();
    assert_eq!(t.step(EVENT_KEY_UP, 7, false, false, 0), PLAY_UP);
}

#[test]
fn modifier_events_toggle() {
    let mut t = KeyTracker::new();
    assert_eq!(t.step(EVENT_FLAGS_CHANGED, 56, false, false, 0), PLAY_DOWN);
    assert_eq!(t.step(EVENT_FLAGS_CHANGED, 56, false, false, 0), PLAY_UP);
    assert_eq!(t.step(EVENT_FLAGS_CHANGED, 56, false, false, 0), PLAY_DOWN);
}

#[test]
fn disabled_modifiers_are_silent() {
    let mut t = KeyTracker::new();
    assert_eq!(t.step(EVENT_FLAGS_CHANGED, 56, true, false, 0), TapAction::Pass);
    // Nothing was recorded: with modifiers enabled again it is a press.
    assert_eq!(t.step(EVENT_FLAGS_CHANGED, 56, false, false, 0), PLAY_DOWN);
}

#[test]
fn tap_disabled_events_reenable() {
    let mut t = KeyTracker::new();
    assert!(tap_disabled(TAP_DISABLED_BY_TIMEOUT));
    assert!(tap_disabled(TAP_DISABLED_BY_USER_INPUT));
    assert!(!tap_disabled(EVENT_KEY_DOWN));
    assert_eq!(t.step(TAP_DISABLED_BY_TIMEOUT, 0, false, false, 0), TapAction::Reenable);
    assert_eq!(t.step(TAP_DISABLED_BY_USER_INPUT, 0, false, true, 0), TapAction::Reenable);
    assert_eq!(t.step(EVENT_KEY_DOWN, 0, false, false, 0), PLAY_DOWN);
}

#[test]
fn other_events_pass() {
    let mut t = KeyTracker::new();
    assert_eq!(t.step(1, 0, false, false, 0), TapAction::Pass);
    assert_eq!(t.step(22, 0, false, true, 0), TapAction::Pass);
}

#[test]
fn rapid_guard_silences_events_within_ten_ms() {
    let mut t = KeyTracker::new();
    let t0 = 1_000_000_000u64;
    assert_eq!(t.step(EVENT_KEY_DOWN, 0, false, true, t0), PLAY_DOWN);
    // 5 ms later: too soon.
    assert_eq!(t.step(EVENT_KEY_DOWN, 1, false, true, t0 + 5_000_000), TapAction::Pass);
    // 9.999 ms after the silenced event: still too soon (the silenced one counts).
    assert_eq!(
        t.step(EVENT_KEY_DOWN, 2, false, true, t0 + 5_000_000 + RAPID_WINDOW_NS - 1),
        TapAction::Pass
    );
    // Exactly the window after the previous event: plays.
    assert_eq!(
        t.step(EVENT_KEY_UP, 0, false, true, t0 + 5_000_000 + 2 * RAPID_WINDOW_NS - 1),
        PLAY_UP
    );
}

#[test]
fn rapid_guard_with_clock_going_back_is_silent() {
    let mut t = KeyTracker::new();
    assert_eq!(t.step(EVENT_KEY_DOWN, 0, false, true, 50_000_000), PLAY_DOWN);
    assert_eq!(t.step(EVENT_KEY_UP, 0, false, true, 10), TapAction::Pass);
}

#[test]
fn rapid_guard_first_event_near_epoch_is_silent() {
    // The last event time starts at 0.
    let mut t = KeyTracker::new();
    assert_eq!(t.step(EVENT_KEY_DOWN, 0, false, true, 1_000), TapAction::Pass);
}

#[test]
fn repeats_do_not_touch_the_rapid_guard() {
    let mut t = KeyTracker::new();
    assert_eq!(t.step(EVENT_KEY_DOWN, 0, false, true, 100_000_000), PLAY_DOWN);
    assert_eq!(t.step(EVENT_KEY_DOWN, 0, false, true, 105_000_000), TapAction::Pass);
    // The repeat was not recorded, so 10 ms after the first event plays.
    assert_eq!(t.step(EVENT_KEY_UP, 0, false, true, 110_000_000), PLAY_UP);
}

#[test]
fn on_event_without_guard_matches_step() {
    let mut a = KeyTracker::new();
    let mut b = KeyTracker::new();
    for (raw, code) in [(EVENT_KEY_DOWN, 3), (EVENT_KEY_DOWN, 3), (EVENT_KEY_UP, 3), (EVENT_FLAGS_CHANGED, 59)] {
        assert_eq!(a.on_event(raw, code, false, false), b.step(raw, code, false, false, 0));
    }
}

#[test]
fn on_event_with_guard_uses_the_clock() {
    let mut t = KeyTracker::new();
    // The clock is far past the epoch, so the first event plays...
    assert_eq!(t.on_event(EVENT_KEY_DOWN, 0, false, true), PLAY_DOWN);
    // ...and an immediate second one does not.
    assert_eq!(t.on_event(EVENT_KEY_DOWN, 1, false, true), TapAction::Pass);
}

#[test]
fn now_ns_is_after_2020() {
    assert!(now_ns() > 1_577_836_800_000_000_000);
}

fn bank() -> SoundBank<u8> {
    SoundBank {
        name: "p".to_string(),
        samples: vec![1, 2, 3],
        down: vec![
            KeySoundIds { key: "a".to_string(), ids: vec![0] },
            KeySoundIds { key: "default".to_string(), ids: vec![1] },
        ],
        up: vec![KeySoundIds { key: "space".to_string(), ids: vec![2] }],
        supports_key_up: true,
    }
}

#[test]
fn sound_for_key_maps_code_to_key_name() {
    let b = bank();
    assert_eq!(sound_for_key(&b, 0, true, true), Some(0)); // code 0 is "a"
    assert_eq!(sound_for_key(&b, 1, true, true), Some(1)); // "s" falls back to default
    assert_eq!(sound_for_key(&b, 49, false, true), Some(2)); // "space" key-up
    assert_eq!(sound_for_key(&b, 0, false, true), None); // no key-up sound for "a"
}

#[test]
fn sound_for_key_when_disabled_is_none() {
    let b = bank();
    assert_eq!(sound_for_key(&b, 0, true, false), None);
    assert_eq!(sound_for_key(&b, 49, false, false), None);
}

#[test]
fn epoch_nanos_truncates_and_maps_errors_to_zero() {
    assert_eq!(clack::tap::epoch_nanos(None), 0);
    assert_eq!(clack::tap::epoch_nanos(Some(42)), 42);
    assert_eq!(clack::tap::epoch_nanos(Some(u64::MAX as u128)), u64::MAX);
    assert_eq!(clack::tap::epoch_nanos(Some((1u128 << 64) + 7)), 7);
}
