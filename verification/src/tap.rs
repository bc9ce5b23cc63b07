//! The decisions of the global key tap: which events make a sound, which are
//! key-repeats to ignore, the optional guard against rapid events, and which
//! sound of the bank answers a key. The event tap itself (an OS callback)
//! hands each event to `KeyTracker::on_event` and acts on the answer.
use vstd::prelude::*;

use std::collections::HashSet;
use std::time::{Duration, SystemTime, SystemTimeError};

use crate::bank::{PcmId, SoundBank};
use crate::keymap::key_name;

verus! {

broadcast use vstd::std_specs::hash::group_hash_axioms;

/// Raw event type of a key press.
pub const EVENT_KEY_DOWN: u32 = 10;

/// Raw event type of a key release.
pub const EVENT_KEY_UP: u32 = 11;

/// Raw event type of a modifier key (shift, control, ...) changing state.
pub const EVENT_FLAGS_CHANGED: u32 = 12;

/// Raw event type sent when the system disabled the tap after a timeout.
pub const TAP_DISABLED_BY_TIMEOUT: u32 = 0xFFFF_FFFE;

/// Raw event type sent when the tap was disabled by user input.
pub const TAP_DISABLED_BY_USER_INPUT: u32 = 0xFFFF_FFFF;

/// Events closer together than this many nanoseconds count as rapid.
pub const RAPID_WINDOW_NS: u64 = 10_000_000;

/// What the tap does with an event.
#[derive(Clone, Copy, Debug, PartialEq, Eq)]
pub enum TapAction {
    /// The tap was disabled by the system: enable it again, play nothing.
    Reenable,
    /// Let the event through without a sound.
    Pass,
    /// Play the key-down (`key_down`) or key-up sound of the event's key.
    Play { key_down: bool },
}

/// How a key event changes the set of held keys: the new set, whether the
/// event counts as a key-down, and whether it makes a sound.
/// A press of a held key is a key-repeat and is ignored; a modifier event
/// presses the modifier when it is not held and releases it when it is,
/// unless modifier sounds are disabled, in which case it is ignored.
pub open spec fn spec_transition(
    pressed: Set<i64>,
    raw: u32,
    code: i64,
    disable_modifiers: bool,
) -> (Set<i64>, bool, bool) {
    if raw == EVENT_KEY_DOWN {
        if pressed.contains(code) {
            (pressed, true, false)
        } else {
            (pressed.insert(code), true, true)
        }
    } else if raw == EVENT_KEY_UP {
        (pressed.remove(code), false, true)
    } else if raw == EVENT_FLAGS_CHANGED {
        if disable_modifiers {
            (pressed, true, false)
        } else if pressed.contains(code) {
            (pressed.remove(code), false, true)
        } else {
            (pressed.insert(code), true, true)
        }
    } else {
        (pressed, true, false)
    }
}

/// True for the two raw event types that say the tap was disabled.
pub open spec fn is_tap_disabled(raw: u32) -> bool {
    raw == TAP_DISABLED_BY_TIMEOUT || raw == TAP_DISABLED_BY_USER_INPUT
}

/// Whether the raw event type says the tap was disabled (the event then
/// carries no key).
pub fn tap_disabled(raw: u32) -> (res: bool)
    ensures
        res == is_tap_disabled(raw),
{
    raw == TAP_DISABLED_BY_TIMEOUT || raw == TAP_DISABLED_BY_USER_INPUT
}

/// `now - last`, saturating at zero.
pub open spec fn elapsed(now: u64, last: u64) -> u64 {
    if now >= last {
        (now - last) as u64
    } else {
        0
    }
}

/// One step of the tap: from the held keys and the time of the last sounding
/// event, and an event at time `now`, the new held keys, the new time of the
/// last sounding event, and the action.
/// With `ignore_rapid`, every sounding event records `now`, and one that comes
/// less than `RAPID_WINDOW_NS` after the previous one plays nothing.
pub open spec fn spec_step(
    pressed: Set<i64>,
    last: u64,
    raw: u32,
    code: i64,
    disable_modifiers: bool,
    ignore_rapid: bool,
    now: u64,
) -> (Set<i64>, u64, TapAction) {
    if is_tap_disabled(raw) {
        (pressed, last, TapAction::Reenable)
    } else {
        let (next, key_down, fire) = spec_transition(pressed, raw, code, disable_modifiers);
        if !fire {
            (next, last, TapAction::Pass)
        } else if ignore_rapid {
            if elapsed(now, last) < RAPID_WINDOW_NS {
                (next, now, TapAction::Pass)
            } else {
                (next, now, TapAction::Play { key_down })
            }
        } else {
            (next, last, TapAction::Play { key_down })
        }
    }
}

/// Whether an event of this raw type, in this state, makes a sound before the
/// rapid-event guard is applied.
pub open spec fn spec_fires(pressed: Set<i64>, raw: u32, code: i64, disable_modifiers: bool) -> bool {
    !is_tap_disabled(raw) && spec_transition(pressed, raw, code, disable_modifiers).2
}

/// A press of a key that is already held (a key-repeat) plays nothing and
/// changes nothing.
pub proof fn law_key_repeat_is_silent(
    pressed: Set<i64>,
    last: u64,
    code: i64,
    disable_modifiers: bool,
    ignore_rapid: bool,
    now: u64,
)
    requires
        pressed.contains(code),
    ensures
        spec_step(pressed, last, EVENT_KEY_DOWN, code, disable_modifiers, ignore_rapid, now)
            == (pressed, last, TapAction::Pass),
{
}

/// Pressing a key that is not held and then releasing it leaves the held keys
/// as they were; without the rapid guard, the press plays the key-down sound
/// and the release the key-up sound.
pub proof fn law_press_release_restores(
    pressed: Set<i64>,
    last: u64,
    code: i64,
    disable_modifiers: bool,
    ignore_rapid: bool,
    t1: u64,
    t2: u64,
)
    requires
        !pressed.contains(code),
    ensures
        ({
            let (p1, l1, a1) = spec_step(
                pressed,
                last,
                EVENT_KEY_DOWN,
                code,
                disable_modifiers,
                ignore_rapid,
                t1,
            );
            let (p2, l2, a2) = spec_step(p1, l1, EVENT_KEY_UP, code, disable_modifiers, ignore_rapid, t2);
            &&& p1 == pressed.insert(code)
            &&& p2 == pressed
            &&& !ignore_rapid ==> a1 == TapAction::Play { key_down: true }
            &&& !ignore_rapid ==> a2 == TapAction::Play { key_down: false }
            &&& !ignore_rapid ==> l2 == last
            &&& (ignore_rapid && elapsed(t1, last) >= RAPID_WINDOW_NS) ==> a1 == TapAction::Play {
                key_down: true,
            }
            &&& (ignore_rapid && elapsed(t1, last) >= RAPID_WINDOW_NS && elapsed(t2, t1)
                >= RAPID_WINDOW_NS) ==> a2 == TapAction::Play { key_down: false }
        }),
{
    assert(pressed.insert(code).remove(code) =~= pressed);
}

/// A modifier event presses a modifier that is not held and releases it the
/// next time, leaving the held keys as they were; without the rapid guard the
/// first plays the key-down sound and the second the key-up sound.
pub proof fn law_modifier_toggles(
    pressed: Set<i64>,
    last: u64,
    code: i64,
    ignore_rapid: bool,
    t1: u64,
    t2: u64,
)
    requires
        !pressed.contains(code),
    ensures
        ({
            let (p1, l1, a1) = spec_step(pressed, last, EVENT_FLAGS_CHANGED, code, false, ignore_rapid, t1);
            let (p2, l2, a2) = spec_step(p1, l1, EVENT_FLAGS_CHANGED, code, false, ignore_rapid, t2);
            &&& p1 == pressed.insert(code)
            &&& p2 == pressed
            &&& !ignore_rapid ==> a1 == TapAction::Play { key_down: true }
            &&& !ignore_rapid ==> a2 == TapAction::Play { key_down: false }
            &&& (ignore_rapid && elapsed(t1, last) >= RAPID_WINDOW_NS) ==> a1 == TapAction::Play {
                key_down: true,
            }
            &&& (ignore_rapid && elapsed(t1, last) >= RAPID_WINDOW_NS && elapsed(t2, t1)
                >= RAPID_WINDOW_NS) ==> a2 == TapAction::Play { key_down: false }
        }),
{
    assert(pressed.insert(code).remove(code) =~= pressed);
}

/// With modifier sounds disabled, a modifier event plays nothing and changes
/// nothing.
pub proof fn law_disabled_modifiers_are_silent(
    pressed: Set<i64>,
    last: u64,
    code: i64,
    ignore_rapid: bool,
    now: u64,
)
    ensures
        spec_step(pressed, last, EVENT_FLAGS_CHANGED, code, true, ignore_rapid, now) == (
            pressed,
            last,
            TapAction::Pass,
        ),
{
}

/// When the system disables the tap, the tap is enabled again and nothing
/// else changes.
pub proof fn law_tap_disabled_reenables(
    pressed: Set<i64>,
    last: u64,
    raw: u32,
    code: i64,
    disable_modifiers: bool,
    ignore_rapid: bool,
    now: u64,
)
    requires
        is_tap_disabled(raw),
    ensures
        spec_step(pressed, last, raw, code, disable_modifiers, ignore_rapid, now) == (
            pressed,
            last,
            TapAction::Reenable,
        ),
{
}

/// Events that do not concern keys play nothing and change nothing.
pub proof fn law_other_events_pass(
    pressed: Set<i64>,
    last: u64,
    raw: u32,
    code: i64,
    disable_modifiers: bool,
    ignore_rapid: bool,
    now: u64,
)
    requires
        raw != EVENT_KEY_DOWN,
        raw != EVENT_KEY_UP,
        raw != EVENT_FLAGS_CHANGED,
        !is_tap_disabled(raw),
    ensures
        spec_step(pressed, last, raw, code, disable_modifiers, ignore_rapid, now) == (
            pressed,
            last,
            TapAction::Pass,
        ),
{
}

/// With the rapid guard on, of two sounding events less than
/// `RAPID_WINDOW_NS` apart, the second plays nothing; events at least that far
/// apart from the previous sounding event play as without the guard.
pub proof fn law_rapid_guard(
    pressed: Set<i64>,
    last: u64,
    raw1: u32,
    code1: i64,
    raw2: u32,
    code2: i64,
    disable_modifiers: bool,
    t1: u64,
    t2: u64,
)
    requires
        spec_fires(pressed, raw1, code1, disable_modifiers),
    ensures
        ({
            let (p1, l1, a1) = spec_step(pressed, last, raw1, code1, disable_modifiers, true, t1);
            let (p2, l2, a2) = spec_step(p1, l1, raw2, code2, disable_modifiers, true, t2);
            &&& l1 == t1
            &&& a1 is Play <==> elapsed(t1, last) >= RAPID_WINDOW_NS
            &&& (spec_fires(p1, raw2, code2, disable_modifiers) && elapsed(t2, t1)
                < RAPID_WINDOW_NS) ==> a2 == TapAction::Pass && l2 == t2
        }),
{
}

/// The rapid guard only silences: with the guard on, an event changes the
/// held keys as without it, re-enables the tap exactly when it would without
/// it, and when it plays, it plays the same key-down or key-up sound as the
/// same event without the guard; an event that plays nothing without the
/// guard plays nothing with it.
pub proof fn law_guard_only_silences(
    pressed: Set<i64>,
    last: u64,
    raw: u32,
    code: i64,
    disable_modifiers: bool,
    now: u64,
)
    ensures
        ({
            let (pg, lg, ag) = spec_step(pressed, last, raw, code, disable_modifiers, true, now);
            let (pu, lu, au) = spec_step(pressed, last, raw, code, disable_modifiers, false, now);
            &&& pg == pu
            &&& ag is Reenable <==> au is Reenable
            &&& ag is Play ==> ag == au
            &&& au is Pass ==> ag is Pass
            &&& ag is Play ==> ag == TapAction::Play {
                key_down: spec_transition(pressed, raw, code, disable_modifiers).1,
            }
        }),
{
}

/// Without the rapid guard, the time of events plays no part.
pub proof fn law_time_irrelevant_without_guard(
    pressed: Set<i64>,
    last: u64,
    raw: u32,
    code: i64,
    disable_modifiers: bool,
    t1: u64,
    t2: u64,
)
    ensures
        spec_step(pressed, last, raw, code, disable_modifiers, false, t1) == spec_step(
            pressed,
            last,
            raw,
            code,
            disable_modifiers,
            false,
            t2,
        ),
{
}

/// The state the tap callback keeps between events.
pub struct KeyTracker {
    pressed: HashSet<i64>,
    last_event_ns: u64,
}

impl KeyTracker {
    /// The keys currently held.
    pub closed spec fn pressed_keys(&self) -> Set<i64> {
        self.pressed@
    }

    /// The time of the last sounding event that the rapid guard recorded.
    pub closed spec fn last_event(&self) -> u64 {
        self.last_event_ns
    }

    /// No key held, no event seen.
    pub fn new() -> (t: Self)
        ensures
            t.pressed_keys() == Set::<i64>::empty(),
            t.last_event() == 0,
    {
        KeyTracker { pressed: HashSet::new(), last_event_ns: 0 }
    }

    /// Updates the held keys for a key event (not a tap-disabled one) and
    /// returns `Some(key_down)` when the event makes a sound.
    fn transition(&mut self, raw: u32, code: i64, disable_modifiers: bool) -> (res: Option<bool>)
        ensures
            final(self).pressed_keys() == spec_transition(
                old(self).pressed_keys(),
                raw,
                code,
                disable_modifiers,
            ).0,
            final(self).last_event() == old(self).last_event(),
            match res {
                Some(key_down) => spec_transition(
                    old(self).pressed_keys(),
                    raw,
                    code,
                    disable_modifiers,
                ).2 && key_down == spec_transition(
                    old(self).pressed_keys(),
                    raw,
                    code,
                    disable_modifiers,
                ).1,
                None => !spec_transition(old(self).pressed_keys(), raw, code, disable_modifiers).2,
            },
    {
        if raw == EVENT_KEY_DOWN {
            if self.pressed.contains(&code) {
                None
            } else {
                self.pressed.insert(code);
                Some(true)
            }
        } else if raw == EVENT_KEY_UP {
            self.pressed.remove(&code);
            Some(false)
        } else if raw == EVENT_FLAGS_CHANGED {
            if disable_modifiers {
                None
            } else if self.pressed.remove(&code) {
                Some(false)
            } else {
                self.pressed.insert(code);
                Some(true)
            }
        } else {
            None
        }
    }

    /// The rapid-event guard: records `now` and says whether the event may play.
    fn rapid_allows(&mut self, now: u64) -> (ok: bool)
        ensures
            final(self).pressed_keys() == old(self).pressed_keys(),
            final(self).last_event() == now,
            ok == (elapsed(now, old(self).last_event()) >= RAPID_WINDOW_NS),
    {
        let gap = now.saturating_sub(self.last_event_ns);
        self.last_event_ns = now;
        gap >= RAPID_WINDOW_NS
    }

    /// Handles one event that arrived at time `now`, as `spec_step` states.
    pub fn step(
        &mut self,
        raw: u32,
        code: i64,
        disable_modifiers: bool,
        ignore_rapid: bool,
        now: u64,
    ) -> (action: TapAction)
        ensures
            (final(self).pressed_keys(), final(self).last_event(), action) == spec_step(
                old(self).pressed_keys(),
                old(self).last_event(),
                raw,
                code,
                disable_modifiers,
                ignore_rapid,
                now,
            ),
    {
        if tap_disabled(raw) {
            return TapAction::Reenable;
        }
        match self.transition(raw, code, disable_modifiers) {
            None => TapAction::Pass,
            Some(key_down) => {
                if ignore_rapid && !self.rapid_allows(now) {
                    TapAction::Pass
                } else {
                    TapAction::Play { key_down }
                }
            },
        }
    }

    /// Handles one event as it arrives: like `step`, with the clock read (by
    /// `now_ns`) only when the rapid guard needs it. Whatever the clock says,
    /// the result is that of `step` at some time.
    pub fn on_event(
        &mut self,
        raw: u32,
        code: i64,
        disable_modifiers: bool,
        ignore_rapid: bool,
    ) -> (action: TapAction)
        ensures
            exists|now: u64|
                (final(self).pressed_keys(), final(self).last_event(), action) == #[trigger] spec_step(
                    old(self).pressed_keys(),
                    old(self).last_event(),
                    raw,
                    code,
                    disable_modifiers,
                    ignore_rapid,
                    now,
                ),
            !(ignore_rapid && spec_fires(old(self).pressed_keys(), raw, code, disable_modifiers))
                ==> (final(self).pressed_keys(), final(self).last_event(), action) == spec_step(
                old(self).pressed_keys(),
                old(self).last_event(),
                raw,
                code,
                disable_modifiers,
                ignore_rapid,
                0,
            ),
    {
        let fires = !tap_disabled(raw) && self.would_fire(raw, code, disable_modifiers);
        let now = if ignore_rapid && fires {
            now_ns()
        } else {
            0
        };
        let action = self.step(raw, code, disable_modifiers, ignore_rapid, now);
        assert((final(self).pressed_keys(), final(self).last_event(), action) == spec_step(
            old(self).pressed_keys(),
            old(self).last_event(),
            raw,
            code,
            disable_modifiers,
            ignore_rapid,
            now,
        ));
        action
    }

    /// Whether a key event (not a tap-disabled one) would make a sound.
    fn would_fire(&self, raw: u32, code: i64, disable_modifiers: bool) -> (res: bool)
        ensures
            res == spec_transition(self.pressed_keys(), raw, code, disable_modifiers).2,
    {
        if raw == EVENT_KEY_DOWN {
            !self.pressed.contains(&code)
        } else if raw == EVENT_KEY_UP {
            true
        } else if raw == EVENT_FLAGS_CHANGED {
            !disable_modifiers
        } else {
            false
        }
    }
}

/// The sounds the event of a key may play: key-down or key-up sounds of the
/// key's name.
pub open spec fn sound_candidates<S>(bank: SoundBank<S>, code: i64, key_down: bool) -> Seq<PcmId> {
    if key_down {
        bank.down_candidates(crate::keymap::spec_key_name(code))
    } else {
        bank.up_candidates(crate::keymap::spec_key_name(code))
    }
}

/// The sound to play for a sounding event: none while sounds are disabled,
/// else a random one of the key's sounds, falling back to "default".
pub fn sound_for_key<S>(bank: &SoundBank<S>, code: i64, key_down: bool, enabled: bool) -> (res:
    Option<PcmId>)
    ensures
        !enabled ==> res is None,
        enabled ==> (res is None <==> sound_candidates(*bank, code, key_down).len() == 0),
        res matches Some(id) ==> sound_candidates(*bank, code, key_down).contains(id),
        res matches Some(id) ==> (bank.ids_in_range() ==> id < bank.samples@.len()),
{
    if !enabled {
        return None;
    }
    let name = key_name(code);
    if key_down {
        bank.pick_down(name)
    } else {
        bank.pick_up(name)
    }
}

/// A point in wall-clock time (`std::time::SystemTime`), carried opaquely.
#[verifier::external_type_specification]
#[verifier::external_body]
pub struct ExSystemTime(SystemTime);

/// The error of a time before the reference point (`std::time::SystemTimeError`).
#[verifier::external_type_specification]
#[verifier::external_body]
pub struct ExSystemTimeError(SystemTimeError);

/// Calls `SystemTime::now`: the current wall-clock time. Nothing is stated of
/// it: it depends on the clock.
#[verifier::external_body]
fn system_now() -> SystemTime {
    SystemTime::now()
}

/// Calls `SystemTime::duration_since(UNIX_EPOCH)`: the time since 1970, or an
/// error for a time before it. Nothing is stated of which comes.
#[verifier::external_body]
fn since_unix_epoch(t: &SystemTime) -> Result<Duration, SystemTimeError> {
    t.duration_since(std::time::UNIX_EPOCH)
}

/// Calls `Duration::as_nanos`: the whole nanoseconds of the duration. The
/// duration is opaque here, so nothing is stated of the number.
#[verifier::external_body]
fn duration_nanos(d: &Duration) -> u128 {
    d.as_nanos()
}

/// The clock reading as `now_ns` reports it: the nanoseconds since the epoch
/// truncated to 64 bits, or 0 when the clock is before the epoch (`None`).
pub fn epoch_nanos(since: Option<u128>) -> (ns: u64)
    ensures
        ns == match since {
            Some(n) => n as u64,
            None => 0u64,
        },
{
    match since {
        Some(n) => n as u64,
        None => 0,
    }
}

/// Nanoseconds since the Unix epoch (truncated to 64 bits), or 0 when the
/// clock is before the epoch. Which number comes depends on the clock alone;
/// `epoch_nanos` states what is made of the clock reading.
pub fn now_ns() -> u64 {
    let t = system_now();
    let since = match since_unix_epoch(&t) {
        Ok(d) => Some(duration_nanos(&d)),
        Err(_) => None,
    };
    epoch_nanos(since)
}

} // verus!
