//! The dictation loop: how hotkey presses and releases start and stop recordings in each
//! recording mode, and what happens to the result.
use vstd::prelude::*;
use crate::text::{starts_with, str_eq, trim_str};

verus! {

/// The dictation loop's state.
#[derive(Debug)]
pub struct RecordingLoop {
    pub is_recording: bool,
    /// The mode the current recording started in: `push_to_talk`, `hands_free` or
    /// `command`.
    pub active_mode: String,
    /// The hotkey's last reported state.
    pub is_physically_pressed: bool,
}

/// What the loop does on a hotkey report.
#[derive(Clone, Copy, Debug, PartialEq, Eq, Structural)]
pub enum LoopAction {
    /// A repeat of the state already known: nothing happens.
    Ignore,
    /// Start recording; in command mode the selected text is captured first.
    Start { command_mode: bool },
    /// Stop recording and process it; command mode processes it as an instruction.
    Stop { is_intent_mode: bool },
    /// Nothing to do.
    Nothing,
}

pub open spec fn loop_step(
    is_recording: bool,
    active_mode: Seq<char>,
    pressed_before: bool,
    is_pressed: bool,
    mode: Seq<char>,
) -> (bool, Seq<char>, LoopAction) {
    if is_pressed == pressed_before {
        (is_recording, active_mode, LoopAction::Ignore)
    } else if is_pressed && !is_recording {
        (true, mode, LoopAction::Start { command_mode: mode == "command"@ })
    } else if is_recording {
        let stop = if active_mode == "hands_free"@ {
            is_pressed
        } else {
            !is_pressed
        };
        if stop {
            (false, active_mode, LoopAction::Stop { is_intent_mode: active_mode == "command"@ })
        } else {
            (true, active_mode, LoopAction::Nothing)
        }
    } else {
        (is_recording, active_mode, LoopAction::Nothing)
    }
}

impl RecordingLoop {
    pub fn new() -> (r: Self)
        ensures
            !r.is_recording,
            r.active_mode@ == "push_to_talk"@,
            !r.is_physically_pressed,
    {
        RecordingLoop {
            is_recording: false,
            active_mode: String::from_str("push_to_talk"),
            is_physically_pressed: false,
        }
    }

    /// Handles a hotkey report (`is_pressed`), with the recording mode set now. A press
    /// starts a recording; a release stops it, or in `hands_free` mode the next press does.
    pub fn on_hotkey(&mut self, is_pressed: bool, mode: &str) -> (r: LoopAction)
        ensures
            (final(self).is_recording, final(self).active_mode@, r) == loop_step(
                old(self).is_recording,
                old(self).active_mode@,
                old(self).is_physically_pressed,
                is_pressed,
                mode@,
            ),
            final(self).is_physically_pressed == is_pressed,
    {
        if is_pressed == self.is_physically_pressed {
            return LoopAction::Ignore;
        }
        self.is_physically_pressed = is_pressed;
        if is_pressed && !self.is_recording {
            self.is_recording = true;
            self.active_mode = String::from_str(mode);
            return LoopAction::Start { command_mode: str_eq(mode, "command") };
        }
        if self.is_recording {
            let stop = if str_eq(self.active_mode.as_str(), "hands_free") {
                is_pressed
            } else {
                !is_pressed
            };
            if stop {
                self.is_recording = false;
                return LoopAction::Stop {
                    is_intent_mode: str_eq(self.active_mode.as_str(), "command"),
                };
            }
        }
        LoopAction::Nothing
    }
}

/// Whether the focused application is this one (its process id is `our_pid`); the result
/// is then not typed into it.
pub fn is_own_process(target: Option<&str>, our_pid: &str) -> (r: bool)
    ensures
        r == (target matches Some(t) && t@ == our_pid@),
{
    match target {
        Some(t) => str_eq(t, our_pid),
        None => false,
    }
}

/// Whether a command-mode recording first copies the selected text: only when the
/// result will be typed into another application.
pub fn captures_selection(command_mode: bool, skip_inject: bool) -> (r: bool)
    ensures
        r == (command_mode && !skip_inject),
{
    command_mode && !skip_inject
}

pub open spec fn opt_text(o: Option<String>) -> Option<Seq<char>> {
    match o {
        Some(s) => Some(s@),
        None => None,
    }
}

/// The selected text, from the clipboard before and after a copy: the new clipboard
/// text if the copy changed it, else nothing.
pub fn selection_from_clipboard(saved: &Option<String>, after: Option<String>) -> (r: Option<
    String,
>)
    ensures
        opt_text(after) != opt_text(*saved) ==> opt_text(r) == opt_text(after),
        opt_text(after) == opt_text(*saved) ==> r is None,
{
    let same = match (saved, &after) {
        (Some(a), Some(b)) => str_eq(a.as_str(), b.as_str()),
        (None, None) => true,
        _ => false,
    };
    if same {
        None
    } else {
        after
    }
}

/// Whether the saved key is a Groq key (`gsk_` after trimming).
pub fn has_groq_key(api_key: &str) -> (r: bool)
    ensures
        r == "gsk_"@.is_prefix_of(crate::text::trim(api_key@)),
{
    starts_with(trim_str(api_key), "gsk_")
}

/// What becomes of a dictation result.
#[derive(Clone, Copy, Debug, PartialEq, Eq, Structural)]
pub enum Delivery {
    /// Type it into the focused application.
    Inject,
    /// Only report it: this application had the focus.
    Report,
    /// Nothing was said.
    Nothing,
}

/// A non-empty result is typed into the focused application, or only reported when that
/// is this application.
pub fn dictation_delivery(text: &str, do_inject: bool) -> (r: Delivery)
    ensures
        text@.len() == 0 ==> r == Delivery::Nothing,
        text@.len() != 0 && do_inject ==> r == Delivery::Inject,
        text@.len() != 0 && !do_inject ==> r == Delivery::Report,
{
    if text.is_empty() {
        Delivery::Nothing
    } else if do_inject {
        Delivery::Inject
    } else {
        Delivery::Report
    }
}

/// The Windows system sound for a sound name: `Hand` for failures, `Asterisk` otherwise.
pub fn windows_sound(sound: &str) -> (r: &'static str)
    ensures
        (sound@ == "Basso"@ || sound@ == "Funk"@) ==> r@ == "Hand"@,
        !(sound@ == "Basso"@ || sound@ == "Funk"@) ==> r@ == "Asterisk"@,
{
    proof {
        reveal_strlit("Tink");
        reveal_strlit("Ping");
        reveal_strlit("Basso");
        reveal_strlit("Funk");
        assert("Tink"@[0] != "Basso"@[0] && "Tink"@[0] != "Funk"@[0]);
        assert("Ping"@[0] != "Basso"@[0] && "Ping"@[0] != "Funk"@[0]);
    }
    if str_eq(sound, "Tink") || str_eq(sound, "Ping") {
        "Asterisk"
    } else if str_eq(sound, "Basso") || str_eq(sound, "Funk") {
        "Hand"
    } else {
        "Asterisk"
    }
}

/// A report that repeats the hotkey's known state changes nothing.
pub proof fn lemma_repeat_ignored(
    is_recording: bool,
    active_mode: Seq<char>,
    pressed: bool,
    mode: Seq<char>,
)
    ensures
        loop_step(is_recording, active_mode, pressed, pressed, mode) == (
            is_recording,
            active_mode,
            LoopAction::Ignore,
        ),
{
}

/// From idle with the hotkey up, a press starts a recording in the current mode (capturing
/// the selection first in `command` mode). In `push_to_talk` and `command` mode the
/// release stops it, as an instruction in `command` mode; in `hands_free` mode the
/// release changes nothing and the next press stops it.
pub proof fn lemma_press_release_cycle(active_mode: Seq<char>, mode: Seq<char>)
    ensures
        ({
            let (rec1, mode1, a1) = loop_step(false, active_mode, false, true, mode);
            let (rec2, mode2, a2) = loop_step(rec1, mode1, true, false, mode);
            let (rec3, mode3, a3) = loop_step(rec2, mode2, false, true, mode);
            &&& rec1 && mode1 == mode
            &&& a1 == LoopAction::Start { command_mode: mode == "command"@ }
            &&& mode != "hands_free"@ ==> {
                &&& !rec2
                &&& a2 == LoopAction::Stop { is_intent_mode: mode == "command"@ }
            }
            &&& mode == "hands_free"@ ==> {
                &&& rec2
                &&& a2 == LoopAction::Nothing
                &&& !rec3
                &&& a3 == LoopAction::Stop { is_intent_mode: false }
            }
        }),
{
    reveal_strlit("hands_free");
    reveal_strlit("command");
    assert("hands_free"@ != "command"@) by {
        assert("hands_free"@[0] != "command"@[0]);
    }
}

} // verus!
