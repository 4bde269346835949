use dictationapp::windows_ptt_hook::{
    hook_proc, mods_match, parse_hotkey, start, stop_if_trigger_released, update_hotkey,
    HookDecision, HookState, HotkeySpec, KeyMessage, KeyboardSnapshot, VK_SPACE,
};

const MS: u64 = 1_000_000;

fn keys(ctrl: bool, alt: bool, shift: bool, trigger_down: bool) -> KeyboardSnapshot {
    KeyboardSnapshot { ctrl, alt, shift, trigger_down }
}

#[test]
fn hotkey_texts_parse() {
    let s = parse_hotkey("CmdOrCtrl+Shift+Space");
    assert!(s.ctrl && s.shift && !s.alt);
    assert_eq!(s.key_vk, VK_SPACE);
    let d = HotkeySpec::default();
    assert!(d.ctrl && d.shift && !d.alt);
    assert_eq!(d.key_vk, 0x20);
    let s = parse_hotkey("Alt+k");
    assert!(s.alt && !s.ctrl && !s.shift);
    assert_eq!(s.key_vk, 0x4B);
    let s = parse_hotkey(" control + 7 ");
    assert!(s.ctrl);
    assert_eq!(s.key_vk, 0x37);
    let s = parse_hotkey("Option+Shift+F5");
    assert!(s.alt && s.shift);
    assert_eq!(s.key_vk, VK_SPACE);
    let s = parse_hotkey("");
    assert!(!s.ctrl && !s.alt && !s.shift);
    assert_eq!(s.key_vk, VK_SPACE);
}

#[test]
fn modifiers_must_all_be_held() {
    let s = parse_hotkey("Ctrl+Shift+Space");
    assert!(mods_match(&s, true, false, true));
    assert!(mods_match(&s, true, true, true));
    assert!(!mods_match(&s, true, false, false));
}

#[test]
fn first_start_installs_once() {
    let mut st = HookState::new();
    assert!(!st.installed);
    assert!(start(&mut st, "Ctrl+Alt+R"));
    assert!(st.spec.alt && st.spec.ctrl);
    assert_eq!(st.spec.key_vk, 0x52);
    assert!(!start(&mut st, "Ctrl+Shift+Space"));
    assert_eq!(st.spec.key_vk, VK_SPACE);
}

#[test]
fn push_to_talk_press_hold_release() {
    let mut st = HookState::new();
    start(&mut st, "CmdOrCtrl+Shift+Space");
    let t0 = 10_000 * MS;
    assert_eq!(hook_proc(&mut st, KeyMessage::KeyDown, VK_SPACE, t0, keys(true, false, true, true)), HookDecision::StartRecording);
    assert!(st.active);
    // Modifiers released while the space bar stays held: repeats are still swallowed.
    assert_eq!(hook_proc(&mut st, KeyMessage::KeyDown, VK_SPACE, t0 + 30 * MS, keys(false, false, false, true)), HookDecision::Swallow);
    assert!(st.active);
    // A key-up within the bounce window is ignored.
    assert_eq!(hook_proc(&mut st, KeyMessage::KeyUp, VK_SPACE, t0 + 50 * MS, keys(false, false, false, false)), HookDecision::Swallow);
    assert!(st.active);
    // A key-up while the key still reads as down is ignored.
    assert_eq!(hook_proc(&mut st, KeyMessage::KeyUp, VK_SPACE, t0 + 500 * MS, keys(false, false, false, true)), HookDecision::Swallow);
    assert!(st.active);
    assert_eq!(hook_proc(&mut st, KeyMessage::KeyUp, VK_SPACE, t0 + 500 * MS, keys(false, false, false, false)), HookDecision::StopRecording);
    assert!(!st.active);
    assert_eq!(st.active_since, None);
}

#[test]
fn other_keys_and_plain_space_pass_through() {
    let mut st = HookState::new();
    start(&mut st, "CmdOrCtrl+Shift+Space");
    assert_eq!(hook_proc(&mut st, KeyMessage::KeyDown, 0x41, 5, keys(true, false, true, false)), HookDecision::PassThrough);
    assert_eq!(hook_proc(&mut st, KeyMessage::KeyDown, VK_SPACE, 5, keys(false, false, false, true)), HookDecision::PassThrough);
    assert!(!st.active);
    assert_eq!(hook_proc(&mut st, KeyMessage::KeyUp, VK_SPACE, 6, keys(false, false, false, false)), HookDecision::PassThrough);
    assert_eq!(hook_proc(&mut st, KeyMessage::Other, VK_SPACE, 7, keys(true, false, true, true)), HookDecision::PassThrough);
}

#[test]
fn watchdog_stops_on_sixth_released_poll_and_suppresses() {
    let mut st = HookState::new();
    start(&mut st, "CmdOrCtrl+Shift+Space");
    let t0 = 1_000 * MS;
    hook_proc(&mut st, KeyMessage::KeyDown, VK_SPACE, t0, keys(true, false, true, true));
    // Within the 175 ms grace period nothing happens.
    assert!(!stop_if_trigger_released(&mut st, t0 + 170 * MS, false));
    assert_eq!(st.released_samples, 0);
    let mut now = t0 + 600 * MS;
    for i in 1..6u8 {
        assert!(!stop_if_trigger_released(&mut st, now, false));
        assert_eq!(st.released_samples, i);
        now += 25 * MS;
    }
    assert!(stop_if_trigger_released(&mut st, now, false));
    assert!(!st.active);
    assert!(st.suppress_until_released);
    // Auto-repeat of the still-held key is swallowed and starts nothing.
    assert_eq!(hook_proc(&mut st, KeyMessage::KeyDown, VK_SPACE, now + MS, keys(true, false, true, true)), HookDecision::Swallow);
    assert!(!st.active);
    // The real key-up ends the suppression.
    assert_eq!(hook_proc(&mut st, KeyMessage::KeyUp, VK_SPACE, now + 2 * MS, keys(true, false, true, false)), HookDecision::PassThrough);
    assert!(!st.suppress_until_released);
    assert_eq!(hook_proc(&mut st, KeyMessage::KeyDown, VK_SPACE, now + 3 * MS, keys(true, false, true, true)), HookDecision::StartRecording);
}

#[test]
fn watchdog_waits_for_recent_key_down_and_held_key() {
    let mut st = HookState::new();
    start(&mut st, "CmdOrCtrl+Shift+Space");
    let t0 = 1_000 * MS;
    hook_proc(&mut st, KeyMessage::KeyDown, VK_SPACE, t0, keys(true, false, true, true));
    hook_proc(&mut st, KeyMessage::KeyDown, VK_SPACE, t0 + 500 * MS, keys(true, false, true, true));
    // A repeat 200 ms ago is recent: the poll resets the count.
    assert!(!stop_if_trigger_released(&mut st, t0 + 700 * MS, false));
    assert_eq!(st.released_samples, 0);
    assert!(!stop_if_trigger_released(&mut st, t0 + 900 * MS, false));
    assert_eq!(st.released_samples, 1);
    assert!(!stop_if_trigger_released(&mut st, t0 + 925 * MS, true));
    assert_eq!(st.released_samples, 0);
    assert!(st.active);
}

#[test]
fn hotkey_update_resets_state() {
    let mut st = HookState::new();
    start(&mut st, "CmdOrCtrl+Shift+Space");
    hook_proc(&mut st, KeyMessage::KeyDown, VK_SPACE, 50, keys(true, false, true, true));
    assert!(st.active);
    update_hotkey(&mut st, "Alt+A");
    assert!(!st.active);
    assert_eq!(st.active_since, None);
    assert_eq!(st.last_trigger_down_at, None);
    assert!(st.spec.alt && !st.spec.ctrl);
    assert_eq!(st.spec.key_vk, 0x41);
    assert!(st.installed);
    assert_eq!(hook_proc(&mut st, KeyMessage::KeyDown, 0x41, 60, keys(false, true, false, true)), HookDecision::StartRecording);
}

#[test]
fn release_just_after_bounce_window_stops() {
    let mut st = HookState::new();
    start(&mut st, "CmdOrCtrl+Shift+Space");
    let t0 = 2_000 * MS;
    hook_proc(&mut st, KeyMessage::KeyDown, VK_SPACE, t0, keys(true, false, true, true));
    assert_eq!(hook_proc(&mut st, KeyMessage::KeyUp, VK_SPACE, t0 + 74 * MS, keys(false, false, false, false)), HookDecision::Swallow);
    assert_eq!(hook_proc(&mut st, KeyMessage::KeyUp, VK_SPACE, t0 + 75 * MS, keys(false, false, false, false)), HookDecision::StopRecording);
}
