//! The screenshot overlay: its two modes, the script that tells the page its mode, and
//! the actions on a selected region.
use vstd::prelude::*;
use crate::text::{str_eq, trim, trim_str};

verus! {

pub open spec fn overlay_mode_of(mode: Seq<char>) -> Seq<char> {
    if mode == "ocr"@ {
        "ocr"@
    } else {
        "screenshot"@
    }
}

/// The overlay's mode: `ocr` when asked for, `screenshot` otherwise.
pub fn overlay_mode(mode: &str) -> (r: &'static str)
    ensures
        r@ == overlay_mode_of(mode@),
{
    if str_eq(mode, "ocr") {
        "ocr"
    } else {
        "screenshot"
    }
}

/// The script that hands the overlay page its mode.
pub fn overlay_mode_script(mode: &str) -> (r: String)
    ensures
        r@ == "window.__MIGHTY_OVERLAY_MODE = '"@ + mode@
            + "'; window.dispatchEvent(new CustomEvent('mighty-overlay-mode', { detail: '"@ + mode@
            + "' }));"@,
{
    let mut r = String::from_str("window.__MIGHTY_OVERLAY_MODE = '");
    r.append(mode);
    r.append("'; window.dispatchEvent(new CustomEvent('mighty-overlay-mode', { detail: '");
    r.append(mode);
    r.append("' }));");
    r
}

/// The overlay window's title in a mode.
pub fn overlay_title(mode: &str) -> (r: &'static str)
    ensures
        mode@ == "ocr"@ ==> r@ == "Mighty OCR"@,
        mode@ != "ocr"@ ==> r@ == "Mighty Screenshot"@,
{
    if str_eq(mode, "ocr") {
        "Mighty OCR"
    } else {
        "Mighty Screenshot"
    }
}

/// What to do with a selected screen region.
#[derive(Clone, Copy, Debug, PartialEq, Eq, Structural)]
pub enum ScreenshotAction {
    /// Copy the (annotated) image to the clipboard.
    Copy,
    /// Save the (annotated) image to the pictures folder.
    Save,
    /// Recognize its text and copy it.
    Ocr,
}

/// Reads an overlay action name: `copy`, `save` or `ocr`.
pub fn parse_screenshot_action(action: &str) -> (r: Result<ScreenshotAction, String>)
    ensures
        action@ == "copy"@ ==> r == Ok::<ScreenshotAction, String>(ScreenshotAction::Copy),
        action@ == "save"@ ==> r == Ok::<ScreenshotAction, String>(ScreenshotAction::Save),
        action@ == "ocr"@ ==> r == Ok::<ScreenshotAction, String>(ScreenshotAction::Ocr),
        action@ != "copy"@ && action@ != "save"@ && action@ != "ocr"@ ==> (r matches Err(e) && e@
            == "Unknown screenshot action"@),
{
    proof {
        reveal_strlit("copy");
        reveal_strlit("save");
        reveal_strlit("ocr");
        assert("copy"@[0] != "save"@[0]);
    }
    if str_eq(action, "copy") {
        Ok(ScreenshotAction::Copy)
    } else if str_eq(action, "save") {
        Ok(ScreenshotAction::Save)
    } else if str_eq(action, "ocr") {
        Ok(ScreenshotAction::Ocr)
    } else {
        Err(String::from_str("Unknown screenshot action"))
    }
}

/// The message after an OCR of a region: whether any text was copied.
pub fn ocr_action_message(text: &str) -> (r: &'static str)
    ensures
        trim(text@).len() == 0 ==> r@ == "OCR finished"@,
        trim(text@).len() != 0 ==> r@ == "OCR text copied"@,
{
    if trim_str(text).is_empty() {
        "OCR finished"
    } else {
        "OCR text copied"
    }
}

} // verus!
