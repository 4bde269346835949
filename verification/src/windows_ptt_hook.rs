//! Push-to-talk hotkey state: the decisions of the low-level keyboard hook and of its
//! release watchdog. The hook itself, the key-state queries and the clock belong to
//! the caller, which hands in what they report.
use vstd::prelude::*;
use crate::text::{
    ascii_lower, chars_of, lemma_split_on_nonempty, split_on, str_eq, string_of, to_ascii_lower,
    trim, trim_str,
};

verus! {

/// Virtual-key code of the space bar.
pub const VK_SPACE: u32 = 0x20;

/// Release events of the trigger within this many nanoseconds of activation are bounces.
pub const KEY_UP_BOUNCE_NS: u64 = 75_000_000;

/// The watchdog ignores the trigger's state for this long after activation.
pub const WATCHDOG_GRACE_NS: u64 = 175_000_000;

/// A trigger key-down seen this recently means the key is still held.
pub const RECENT_DOWN_NS: u64 = 350_000_000;

/// Consecutive "released" samples the watchdog needs before it stops recording.
pub const RELEASED_SAMPLES_TO_STOP: u8 = 6;

/// Modifiers and trigger key of the push-to-talk hotkey.
#[derive(Clone, Copy, Debug)]
pub struct HotkeySpec {
    pub ctrl: bool,
    pub alt: bool,
    pub shift: bool,
    pub key_vk: u32,
}

pub open spec fn default_hotkey_spec() -> HotkeySpec {
    HotkeySpec { ctrl: true, alt: false, shift: true, key_vk: VK_SPACE }
}

impl Default for HotkeySpec {
    /// Ctrl+Shift+Space.
    fn default() -> (r: Self)
        ensures
            r == default_hotkey_spec(),
    {
        HotkeySpec { ctrl: true, alt: false, shift: true, key_vk: VK_SPACE }
    }
}

/// The spec a hotkey text starts from before its parts are read.
pub open spec fn empty_hotkey_spec() -> HotkeySpec {
    HotkeySpec { ctrl: false, alt: false, shift: false, key_vk: VK_SPACE }
}

/// How one `+`-separated part, trimmed and lower-cased, changes the spec.
pub open spec fn apply_hotkey_part(spec: HotkeySpec, part: Seq<char>) -> HotkeySpec {
    if part == "cmdorctrl"@ || part == "ctrl"@ || part == "control"@ {
        HotkeySpec { ctrl: true, ..spec }
    } else if part == "alt"@ || part == "option"@ {
        HotkeySpec { alt: true, ..spec }
    } else if part == "shift"@ {
        HotkeySpec { shift: true, ..spec }
    } else if part == "space"@ {
        HotkeySpec { key_vk: VK_SPACE, ..spec }
    } else if part.len() == 1 && (part[0] as u32) < 128 {
        let ch = part[0] as u32;
        if (0x41 <= ch <= 0x5a) || (0x61 <= ch <= 0x7a) {
            HotkeySpec { key_vk: if ch >= 0x61 { (ch - 32) as u32 } else { ch }, ..spec }
        } else if 0x30 <= ch <= 0x39 {
            HotkeySpec { key_vk: ch, ..spec }
        } else {
            spec
        }
    } else {
        spec
    }
}

/// A part as the parser reads it: trimmed and ASCII lower-cased.
pub open spec fn normalize_part(part: Seq<char>) -> Seq<char> {
    ascii_lower(trim(part))
}

pub open spec fn apply_hotkey_parts(spec: HotkeySpec, parts: Seq<Seq<char>>) -> HotkeySpec
    decreases parts.len(),
{
    if parts.len() == 0 {
        spec
    } else {
        apply_hotkey_part(apply_hotkey_parts(spec, parts.drop_last()), normalize_part(parts.last()))
    }
}

/// The spec of a hotkey text such as `CmdOrCtrl+Shift+Space`.
pub open spec fn parsed_hotkey(value: Seq<char>) -> HotkeySpec {
    apply_hotkey_parts(empty_hotkey_spec(), split_on(value, '+'))
}

fn apply_part_exec(spec: HotkeySpec, raw: &Vec<char>) -> (r: HotkeySpec)
    ensures
        r == apply_hotkey_part(spec, normalize_part(raw@)),
{
    let whole = string_of(raw, 0, raw.len());
    assert(raw@.subrange(0, raw@.len() as int) =~= raw@);
    let t = trim_str(whole.as_str());
    let part = to_ascii_lower(t);
    let p = part.as_str();
    if str_eq(p, "cmdorctrl") || str_eq(p, "ctrl") || str_eq(p, "control") {
        HotkeySpec { ctrl: true, ..spec }
    } else if str_eq(p, "alt") || str_eq(p, "option") {
        HotkeySpec { alt: true, ..spec }
    } else if str_eq(p, "shift") {
        HotkeySpec { shift: true, ..spec }
    } else if str_eq(p, "space") {
        HotkeySpec { key_vk: VK_SPACE, ..spec }
    } else {
        let v = chars_of(p);
        if v.len() == 1 && (v[0] as u32) < 128 {
            let ch = v[0] as u32;
            if (0x41 <= ch && ch <= 0x5a) || (0x61 <= ch && ch <= 0x7a) {
                HotkeySpec {
                    key_vk: if ch >= 0x61 {
                        ch - 32
                    } else {
                        ch
                    },
                    ..spec
                }
            } else if 0x30 <= ch && ch <= 0x39 {
                HotkeySpec { key_vk: ch, ..spec }
            } else {
                spec
            }
        } else {
            spec
        }
    }
}

/// Reads a hotkey text: `+`-separated parts, each trimmed and lower-cased; modifier
/// names set modifiers, `space` or a single letter or digit sets the trigger key,
/// anything else is ignored.
pub fn parse_hotkey(value: &str) -> (r: HotkeySpec)
    ensures
        r == parsed_hotkey(value@),
{
    let v = chars_of(value);
    let n = v.len();
    let mut spec = HotkeySpec { ctrl: false, alt: false, shift: false, key_vk: VK_SPACE };
    let mut cur: Vec<char> = Vec::new();
    let mut i: usize = 0;
    proof {
        assert(v@.subrange(0, 0) =~= Seq::<char>::empty());
    }
    while i < n
        invariant
            n == v.len(),
            v@ == value@,
            i <= n,
            split_on(v@.subrange(0, i as int), '+').len() >= 1,
            cur@ == split_on(v@.subrange(0, i as int), '+').last(),
            spec == apply_hotkey_parts(
                empty_hotkey_spec(),
                split_on(v@.subrange(0, i as int), '+').drop_last(),
            ),
        decreases n - i,
    {
        let ghost pre = v@.subrange(0, i as int);
        let ghost next = v@.subrange(0, i + 1);
        proof {
            assert(next.drop_last() =~= pre);
            assert(next.last() == v@[i as int]);
            lemma_split_on_nonempty(pre, '+');
        }
        let c = v[i];
        if c == '+' {
            spec = apply_part_exec(spec, &cur);
            cur = Vec::new();
            proof {
                let ps = split_on(pre, '+');
                assert(split_on(next, '+') == ps.push(Seq::<char>::empty()));
                assert(ps.push(Seq::<char>::empty()).drop_last() =~= ps);
                assert(ps == ps.drop_last().push(ps.last()));
                assert(cur@ =~= Seq::<char>::empty());
            }
        } else {
            cur.push(c);
            proof {
                let ps = split_on(pre, '+');
                let ns = ps.update(ps.len() - 1, ps.last().push(c));
                assert(split_on(next, '+') == ns);
                assert(ns.drop_last() =~= ps.drop_last());
            }
        }
        i = i + 1;
    }
    proof {
        let ps = split_on(v@.subrange(0, n as int), '+');
        assert(v@.subrange(0, n as int) =~= v@);
        assert(ps == ps.drop_last().push(ps.last()));
        assert(ps.drop_last().push(ps.last()).drop_last() =~= ps.drop_last());
    }
    apply_part_exec(spec, &cur)
}

/// Whether the modifiers held down satisfy the spec: every modifier it names is down.
pub open spec fn mods_satisfy(spec: HotkeySpec, ctrl: bool, alt: bool, shift: bool) -> bool {
    (!spec.ctrl || ctrl) && (!spec.alt || alt) && (!spec.shift || shift)
}

/// Whether the held modifiers (each side of ctrl, alt and shift folded together) match.
pub fn mods_match(spec: &HotkeySpec, ctrl: bool, alt: bool, shift: bool) -> (r: bool)
    ensures
        r == mods_satisfy(*spec, ctrl, alt, shift),
{
    (!spec.ctrl || ctrl) && (!spec.alt || alt) && (!spec.shift || shift)
}

/// The hook's state. Times are nanoseconds on the caller's monotonic clock.
#[derive(Clone, Copy, Debug)]
pub struct HookState {
    pub spec: HotkeySpec,
    pub active: bool,
    pub active_since: Option<u64>,
    pub last_trigger_down_at: Option<u64>,
    pub released_samples: u8,
    pub suppress_until_released: bool,
    pub installed: bool,
}

pub open spec fn initial_hook_state() -> HookState {
    HookState {
        spec: default_hotkey_spec(),
        active: false,
        active_since: None,
        last_trigger_down_at: None,
        released_samples: 0,
        suppress_until_released: false,
        installed: false,
    }
}

/// Time since `t` at `now`; zero if the clock reads earlier than `t`.
pub open spec fn elapsed(now: u64, t: u64) -> u64 {
    if now >= t {
        (now - t) as u64
    } else {
        0
    }
}

fn elapsed_exec(now: u64, t: u64) -> (r: u64)
    ensures
        r == elapsed(now, t),
{
    if now >= t {
        now - t
    } else {
        0
    }
}

impl HookState {
    /// The state before the hook is installed: the default hotkey, idle.
    pub fn new() -> (r: Self)
        ensures
            r == initial_hook_state(),
    {
        HookState {
            spec: HotkeySpec::default(),
            active: false,
            active_since: None,
            last_trigger_down_at: None,
            released_samples: 0,
            suppress_until_released: false,
            installed: false,
        }
    }
}

/// Kind of keyboard message the hook received.
#[derive(Clone, Copy, Debug, PartialEq, Eq, Structural)]
pub enum KeyMessage {
    KeyDown,
    KeyUp,
    Other,
}

/// What the keyboard reports at the moment of a decision.
#[derive(Clone, Copy, Debug)]
pub struct KeyboardSnapshot {
    pub ctrl: bool,
    pub alt: bool,
    pub shift: bool,
    /// Whether the trigger key is physically down.
    pub trigger_down: bool,
}

/// What the hook does with a keyboard message.
#[derive(Clone, Copy, Debug, PartialEq, Eq, Structural)]
pub enum HookDecision {
    /// Hand the message on to the next hook.
    PassThrough,
    /// Swallow the message.
    Swallow,
    /// Swallow the message and start recording.
    StartRecording,
    /// Swallow the message and stop recording.
    StopRecording,
}

/// The hook's transition on one keyboard message.
pub open spec fn hook_step(
    s: HookState,
    message: KeyMessage,
    vk: u32,
    now: u64,
    keys: KeyboardSnapshot,
) -> (HookState, HookDecision) {
    if vk != s.spec.key_vk || message == KeyMessage::Other {
        (s, HookDecision::PassThrough)
    } else if message == KeyMessage::KeyDown {
        let s1 = HookState { last_trigger_down_at: Some(now), ..s };
        if s1.suppress_until_released {
            (s1, HookDecision::Swallow)
        } else if !s1.active && mods_satisfy(s1.spec, keys.ctrl, keys.alt, keys.shift) {
            (
                HookState {
                    active: true,
                    active_since: Some(now),
                    last_trigger_down_at: Some(now),
                    released_samples: 0,
                    suppress_until_released: false,
                    ..s1
                },
                HookDecision::StartRecording,
            )
        } else if s1.active {
            (s1, HookDecision::Swallow)
        } else {
            (s1, HookDecision::PassThrough)
        }
    } else {
        let s1 = HookState { suppress_until_released: false, last_trigger_down_at: None, ..s };
        if !s1.active {
            (s1, HookDecision::PassThrough)
        } else if keys.trigger_down {
            (HookState { released_samples: 0, ..s1 }, HookDecision::Swallow)
        } else if s1.active_since matches Some(t) && elapsed(now, t) < KEY_UP_BOUNCE_NS {
            (s1, HookDecision::Swallow)
        } else {
            (
                HookState {
                    active: false,
                    active_since: None,
                    last_trigger_down_at: None,
                    released_samples: 0,
                    ..s1
                },
                HookDecision::StopRecording,
            )
        }
    }
}

/// Decides what the low-level hook does with a keyboard message for virtual key `vk`
/// received at `now`, given the keyboard's state then.
pub fn hook_proc(
    state: &mut HookState,
    message: KeyMessage,
    vk: u32,
    now: u64,
    keys: KeyboardSnapshot,
) -> (r: HookDecision)
    ensures
        (*final(state), r) == hook_step(*old(state), message, vk, now, keys),
        r == HookDecision::StartRecording ==> !old(state).active && final(state).active,
        r == HookDecision::StopRecording ==> old(state).active && !final(state).active,
        final(state).spec == old(state).spec,
        final(state).installed == old(state).installed,
{
    if vk != state.spec.key_vk {
        return HookDecision::PassThrough;
    }
    let is_key_down = message == KeyMessage::KeyDown;
    let is_key_up = message == KeyMessage::KeyUp;
    if is_key_down {
        state.last_trigger_down_at = Some(now);
    }
    if is_key_up {
        state.suppress_until_released = false;
        state.last_trigger_down_at = None;
    }
    if is_key_down && state.suppress_until_released {
        return HookDecision::Swallow;
    }
    if is_key_down && !state.active && mods_match(&state.spec, keys.ctrl, keys.alt, keys.shift) {
        state.active = true;
        state.active_since = Some(now);
        state.last_trigger_down_at = Some(now);
        state.released_samples = 0;
        state.suppress_until_released = false;
        return HookDecision::StartRecording;
    }
    if is_key_down && state.active {
        state.last_trigger_down_at = Some(now);
        return HookDecision::Swallow;
    }
    if is_key_up && state.active {
        if keys.trigger_down {
            state.released_samples = 0;
            return HookDecision::Swallow;
        }
        let bounce = match state.active_since {
            Some(started) => elapsed_exec(now, started) < KEY_UP_BOUNCE_NS,
            None => false,
        };
        if bounce {
            return HookDecision::Swallow;
        }
        state.active = false;
        state.active_since = None;
        state.last_trigger_down_at = None;
        state.released_samples = 0;
        return HookDecision::StopRecording;
    }
    HookDecision::PassThrough
}

/// The watchdog's transition on one poll at `now`, with the trigger key's state then.
pub open spec fn watchdog_step(s: HookState, now: u64, trigger_down: bool) -> (HookState, bool) {
    if !s.active {
        (s, false)
    } else if s.active_since is None {
        (s, false)
    } else if elapsed(now, s.active_since->0) < WATCHDOG_GRACE_NS {
        (s, false)
    } else if s.last_trigger_down_at matches Some(last) && elapsed(now, last) < RECENT_DOWN_NS {
        (HookState { released_samples: 0, ..s }, false)
    } else if !trigger_down {
        let samples: u8 = if s.released_samples == 255 {
            255
        } else {
            (s.released_samples + 1) as u8
        };
        if samples < RELEASED_SAMPLES_TO_STOP {
            (HookState { released_samples: samples, ..s }, false)
        } else {
            (
                HookState {
                    active: false,
                    active_since: None,
                    last_trigger_down_at: None,
                    released_samples: 0,
                    suppress_until_released: true,
                    ..s
                },
                true,
            )
        }
    } else {
        (HookState { released_samples: 0, ..s }, false)
    }
}

/// One poll of the release watchdog: stops recording (returns `true`) when the trigger
/// has been seen released on enough consecutive polls, outside the grace period after
/// activation and with no recent key-down of the trigger.
pub fn stop_if_trigger_released(state: &mut HookState, now: u64, trigger_down: bool) -> (r: bool)
    ensures
        (*final(state), r) == watchdog_step(*old(state), now, trigger_down),
        r ==> old(state).active && !final(state).active,
        final(state).spec == old(state).spec,
        final(state).installed == old(state).installed,
{
    if !state.active {
        return false;
    }
    let started = match state.active_since {
        Some(t) => t,
        None => {
            return false;
        },
    };
    if elapsed_exec(now, started) < WATCHDOG_GRACE_NS {
        return false;
    }
    let recent_trigger_down = match state.last_trigger_down_at {
        Some(last) => elapsed_exec(now, last) < RECENT_DOWN_NS,
        None => false,
    };
    if recent_trigger_down {
        state.released_samples = 0;
        return false;
    }
    if !trigger_down {
        state.released_samples = state.released_samples.saturating_add(1);
        if state.released_samples < RELEASED_SAMPLES_TO_STOP {
            return false;
        }
        state.active = false;
        state.active_since = None;
        state.last_trigger_down_at = None;
        state.released_samples = 0;
        state.suppress_until_released = true;
        return true;
    }
    state.released_samples = 0;
    false
}

/// The state after the hotkey is changed to `hotkey`: the new spec, idle.
pub open spec fn hotkey_updated(s: HookState, hotkey: Seq<char>) -> HookState {
    HookState {
        spec: parsed_hotkey(hotkey),
        active: false,
        active_since: None,
        last_trigger_down_at: None,
        released_samples: 0,
        suppress_until_released: false,
        ..s
    }
}

/// Changes the push-to-talk hotkey; any recording in progress is forgotten.
pub fn update_hotkey(state: &mut HookState, hotkey: &str)
    ensures
        *final(state) == hotkey_updated(*old(state), hotkey@),
{
    state.spec = parse_hotkey(hotkey);
    state.active = false;
    state.active_since = None;
    state.last_trigger_down_at = None;
    state.released_samples = 0;
    state.suppress_until_released = false;
}

/// Takes the hotkey at start-up. Returns whether the hook and watchdog must be installed
/// now: only the first start installs them.
pub fn start(state: &mut HookState, hotkey: &str) -> (install: bool)
    ensures
        *final(state) == (HookState { spec: parsed_hotkey(hotkey@), installed: true, ..*old(state) }),
        install == !old(state).installed,
{
    state.spec = parse_hotkey(hotkey);
    if state.installed {
        return false;
    }
    state.installed = true;
    true
}

/// What every hook state reached from the initial one keeps: an active recording has a
/// start time and is never being suppressed.
pub open spec fn hook_inv(s: HookState) -> bool {
    s.active ==> (s.active_since is Some && !s.suppress_until_released)
}

/// The initial state keeps the invariant, and so does every keyboard message, watchdog
/// poll, hotkey change and start-up taken from a state that keeps it.
pub proof fn lemma_hook_inv_preserved(
    s: HookState,
    message: KeyMessage,
    vk: u32,
    now: u64,
    keys: KeyboardSnapshot,
    trigger_down: bool,
    hotkey: Seq<char>,
)
    requires
        hook_inv(s),
    ensures
        hook_inv(initial_hook_state()),
        hook_inv(hook_step(s, message, vk, now, keys).0),
        hook_inv(watchdog_step(s, now, trigger_down).0),
        hook_inv(hotkey_updated(s, hotkey)),
        hook_inv(HookState { spec: parsed_hotkey(hotkey), installed: true, ..s }),
{
}

/// Messages for any other key, and messages of the trigger that are neither key-down nor
/// key-up, pass through and change nothing.
pub proof fn lemma_other_keys_pass_through(
    s: HookState,
    message: KeyMessage,
    vk: u32,
    now: u64,
    keys: KeyboardSnapshot,
)
    requires
        vk != s.spec.key_vk || message == KeyMessage::Other,
    ensures
        hook_step(s, message, vk, now, keys) == (s, HookDecision::PassThrough),
{
}

/// A key-down of the trigger while idle starts recording when every modifier of the
/// hotkey is held, and otherwise passes through, so the key types as usual.
pub proof fn lemma_press_starts(s: HookState, now: u64, keys: KeyboardSnapshot)
    requires
        !s.active,
        !s.suppress_until_released,
    ensures
        ({
            let (t, d) = hook_step(s, KeyMessage::KeyDown, s.spec.key_vk, now, keys);
            &&& mods_satisfy(s.spec, keys.ctrl, keys.alt, keys.shift) ==> {
                &&& d == HookDecision::StartRecording
                &&& t.active
                &&& t.active_since == Some(now)
                &&& t.released_samples == 0
            }
            &&& !mods_satisfy(s.spec, keys.ctrl, keys.alt, keys.shift) ==> {
                &&& d == HookDecision::PassThrough
                &&& !t.active
            }
        }),
{
}

/// While recording, every key-down of the trigger (the key's auto-repeat) is swallowed
/// and the recording goes on, whichever modifiers are still held.
pub proof fn lemma_held_trigger_swallowed(s: HookState, now: u64, keys: KeyboardSnapshot)
    requires
        s.active,
    ensures
        ({
            let (t, d) = hook_step(s, KeyMessage::KeyDown, s.spec.key_vk, now, keys);
            &&& d == HookDecision::Swallow
            &&& t.active
            &&& t.active_since == s.active_since
            &&& t.last_trigger_down_at == Some(now)
        }),
{
}

/// While recording, a key-up of the trigger stops the recording once the key is really
/// up and the bounce window after the start has passed.
pub proof fn lemma_release_stops(s: HookState, now: u64, keys: KeyboardSnapshot)
    requires
        s.active,
        !keys.trigger_down,
        s.active_since is Some ==> elapsed(now, s.active_since->0) >= KEY_UP_BOUNCE_NS,
    ensures
        ({
            let (t, d) = hook_step(s, KeyMessage::KeyUp, s.spec.key_vk, now, keys);
            &&& d == HookDecision::StopRecording
            &&& !t.active
            &&& t.active_since is None
            &&& !t.suppress_until_released
        }),
{
}

/// While recording, a key-up of the trigger is swallowed and the recording goes on when
/// the key still reads as down, or when it comes within the bounce window after the
/// start.
pub proof fn lemma_early_release_ignored(s: HookState, now: u64, keys: KeyboardSnapshot)
    requires
        s.active,
        keys.trigger_down || (s.active_since is Some && elapsed(now, s.active_since->0)
            < KEY_UP_BOUNCE_NS),
    ensures
        ({
            let (t, d) = hook_step(s, KeyMessage::KeyUp, s.spec.key_vk, now, keys);
            &&& d == HookDecision::Swallow
            &&& t.active
            &&& t.active_since == s.active_since
        }),
{
}

/// Once the watchdog has stopped a recording, key-downs of the trigger are swallowed and
/// start nothing until a key-up of the trigger is seen, which ends the suppression.
pub proof fn lemma_suppressed_until_key_up(s: HookState, now: u64, keys: KeyboardSnapshot)
    requires
        s.suppress_until_released,
    ensures
        ({
            let (t, d) = hook_step(s, KeyMessage::KeyDown, s.spec.key_vk, now, keys);
            &&& d == HookDecision::Swallow
            &&& t.active == s.active
            &&& t.suppress_until_released
        }),
        !hook_step(s, KeyMessage::KeyUp, s.spec.key_vk, now, keys).0.suppress_until_released,
{
}

/// The watchdog changes nothing while idle or within the grace period after the start.
pub proof fn lemma_watchdog_grace(s: HookState, now: u64, trigger_down: bool)
    requires
        !s.active || (s.active_since is Some && elapsed(now, s.active_since->0)
            < WATCHDOG_GRACE_NS),
    ensures
        watchdog_step(s, now, trigger_down) == (s, false),
{
}

/// A poll past the grace period, with no key-down of the trigger within the recent
/// window.
pub open spec fn quiet_poll(s: HookState, now: u64) -> bool {
    &&& s.active_since is Some
    &&& elapsed(now, s.active_since->0) >= WATCHDOG_GRACE_NS
    &&& s.last_trigger_down_at is None || elapsed(now, s.last_trigger_down_at->0)
        >= RECENT_DOWN_NS
}

/// The state after watchdog polls at `times` that each see the trigger up.
pub open spec fn released_polls(s: HookState, times: Seq<u64>) -> HookState
    decreases times.len(),
{
    if times.len() == 0 {
        s
    } else {
        watchdog_step(released_polls(s, times.drop_last()), times.last(), false).0
    }
}

/// A recording whose trigger is seen up on consecutive quiet polls goes on for the first
/// five, counting them, and the sixth stops it and suppresses the trigger until its
/// key-up.
pub proof fn lemma_watchdog_stops_on_sixth(s: HookState, times: Seq<u64>)
    requires
        s.active,
        s.released_samples == 0,
        times.len() <= RELEASED_SAMPLES_TO_STOP,
        forall|i: int| 0 <= i < times.len() ==> #[trigger] quiet_poll(s, times[i]),
    ensures
        times.len() < RELEASED_SAMPLES_TO_STOP ==> {
            let r = released_polls(s, times);
            &&& r.active
            &&& r.released_samples == times.len()
            &&& r.active_since == s.active_since
            &&& r.last_trigger_down_at == s.last_trigger_down_at
        },
        times.len() == RELEASED_SAMPLES_TO_STOP ==> {
            let r = released_polls(s, times);
            &&& !r.active
            &&& r.suppress_until_released
            &&& watchdog_step(released_polls(s, times.drop_last()), times.last(), false).1
        },
    decreases times.len(),
{
    if times.len() > 0 {
        let prefix = times.drop_last();
        assert forall|i: int| 0 <= i < prefix.len() implies #[trigger] quiet_poll(s, prefix[i]) by {
            assert(prefix[i] == times[i]);
        }
        lemma_watchdog_stops_on_sixth(s, prefix);
        assert(quiet_poll(s, times[times.len() - 1]));
    }
}

/// A watchdog poll that sees the trigger held, or follows a recent key-down, keeps the
/// recording and restarts the count of released polls.
pub proof fn lemma_watchdog_held_resets(s: HookState, now: u64, trigger_down: bool)
    requires
        s.active,
        s.active_since is Some,
        elapsed(now, s.active_since->0) >= WATCHDOG_GRACE_NS,
        trigger_down || (s.last_trigger_down_at is Some && elapsed(
            now,
            s.last_trigger_down_at->0,
        ) < RECENT_DOWN_NS),
    ensures
        watchdog_step(s, now, trigger_down) == (HookState { released_samples: 0, ..s }, false),
{
}

/// The hotkey's modifiers are satisfied exactly when each modifier it names (Ctrl, Alt,
/// Shift) is held; modifiers it does not name may be up or down.
pub proof fn lemma_mods_each_named_one_held(spec: HotkeySpec, ctrl: bool, alt: bool, shift: bool)
    ensures
        mods_satisfy(spec, ctrl, alt, shift) <==> ((spec.ctrl ==> ctrl) && (spec.alt ==> alt) && (
        spec.shift ==> shift)),
{
}

/// From idle and not suppressed, a key-down of the trigger starts recording exactly when
/// every modifier the hotkey names is held. With any named modifier up, the key-down passes
/// through (the key types as usual) and nothing starts.
pub proof fn lemma_start_needs_every_named_modifier(s: HookState, now: u64, keys: KeyboardSnapshot)
    requires
        !s.active,
        !s.suppress_until_released,
    ensures
        (hook_step(s, KeyMessage::KeyDown, s.spec.key_vk, now, keys).1
            == HookDecision::StartRecording) <==> ((s.spec.ctrl ==> keys.ctrl) && (s.spec.alt
            ==> keys.alt) && (s.spec.shift ==> keys.shift)),
        ((s.spec.ctrl && !keys.ctrl) || (s.spec.alt && !keys.alt) || (s.spec.shift
            && !keys.shift)) ==> {
            let (t, d) = hook_step(s, KeyMessage::KeyDown, s.spec.key_vk, now, keys);
            &&& d == HookDecision::PassThrough
            &&& !t.active
        },
{
}

} // verus!
