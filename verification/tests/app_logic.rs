use dictationapp::api_key::{api_key_status, check_key_to_save, choose_persisted_key};
use dictationapp::overlay::{
    ocr_action_message, overlay_mode, overlay_mode_script, overlay_title,
    parse_screenshot_action, ScreenshotAction,
};
use dictationapp::powershell::{command_error, ps_quote};
use dictationapp::recording::{
    captures_selection, dictation_delivery, has_groq_key, is_own_process,
    selection_from_clipboard, windows_sound, Delivery, LoopAction, RecordingLoop,
};

#[test]
fn powershell_quoting_and_errors() {
    assert_eq!(ps_quote("C:\\Users\\O'Brien\\it's.png"), "C:\\Users\\O''Brien\\it''s.png");
    assert_eq!(ps_quote(""), "");
    assert_eq!(command_error("  \r\n", "Clipboard copy failed"), "Clipboard copy failed");
    assert_eq!(command_error("  Access denied \r\n", "x"), "Access denied");
}

#[test]
fn overlay_modes_and_actions() {
    assert_eq!(overlay_mode("ocr"), "ocr");
    assert_eq!(overlay_mode("anything"), "screenshot");
    assert_eq!(overlay_title("ocr"), "Mighty OCR");
    assert_eq!(overlay_title("screenshot"), "Mighty Screenshot");
    assert_eq!(
        overlay_mode_script("ocr"),
        "window.__MIGHTY_OVERLAY_MODE = 'ocr'; window.dispatchEvent(new CustomEvent('mighty-overlay-mode', { detail: 'ocr' }));"
    );
    assert_eq!(parse_screenshot_action("copy"), Ok(ScreenshotAction::Copy));
    assert_eq!(parse_screenshot_action("save"), Ok(ScreenshotAction::Save));
    assert_eq!(parse_screenshot_action("ocr"), Ok(ScreenshotAction::Ocr));
    assert_eq!(parse_screenshot_action("delete"), Err("Unknown screenshot action".to_string()));
    assert_eq!(ocr_action_message("  "), "OCR finished");
    assert_eq!(ocr_action_message(" text "), "OCR text copied");
}

#[test]
fn push_to_talk_cycle() {
    let mut l = RecordingLoop::new();
    assert_eq!(l.active_mode, "push_to_talk");
    assert_eq!(l.on_hotkey(true, "push_to_talk"), LoopAction::Start { command_mode: false });
    assert!(l.is_recording);
    assert_eq!(l.on_hotkey(true, "push_to_talk"), LoopAction::Ignore);
    assert_eq!(l.on_hotkey(false, "push_to_talk"), LoopAction::Stop { is_intent_mode: false });
    assert!(!l.is_recording);
    assert_eq!(l.on_hotkey(false, "push_to_talk"), LoopAction::Ignore);
}

#[test]
fn hands_free_and_command_cycles() {
    let mut l = RecordingLoop::new();
    assert_eq!(l.on_hotkey(true, "hands_free"), LoopAction::Start { command_mode: false });
    assert_eq!(l.on_hotkey(false, "hands_free"), LoopAction::Nothing);
    assert!(l.is_recording);
    // The mode the recording started in decides, not the mode set now.
    assert_eq!(l.on_hotkey(true, "push_to_talk"), LoopAction::Stop { is_intent_mode: false });
    assert_eq!(l.on_hotkey(false, "command"), LoopAction::Nothing);
    assert_eq!(l.on_hotkey(true, "command"), LoopAction::Start { command_mode: true });
    assert_eq!(l.on_hotkey(false, "command"), LoopAction::Stop { is_intent_mode: true });
}

#[test]
fn dictation_targets_and_clipboard() {
    assert!(is_own_process(Some("4242"), "4242"));
    assert!(!is_own_process(Some("17"), "4242"));
    assert!(!is_own_process(None, "4242"));
    assert!(captures_selection(true, false));
    assert!(!captures_selection(true, true));
    assert!(!captures_selection(false, false));
    let saved = Some("old".to_string());
    assert_eq!(selection_from_clipboard(&saved, Some("new".to_string())), Some("new".to_string()));
    assert_eq!(selection_from_clipboard(&saved, Some("old".to_string())), None);
    assert_eq!(selection_from_clipboard(&None, None), None);
    assert_eq!(selection_from_clipboard(&saved, None), None);
    assert_eq!(dictation_delivery("", true), Delivery::Nothing);
    assert_eq!(dictation_delivery("hi", true), Delivery::Inject);
    assert_eq!(dictation_delivery("hi", false), Delivery::Report);
    assert!(has_groq_key("  gsk_1 "));
    assert!(!has_groq_key("xai-1"));
    assert_eq!(windows_sound("Tink"), "Asterisk");
    assert_eq!(windows_sound("Basso"), "Hand");
    assert_eq!(windows_sound("Funk"), "Hand");
    assert_eq!(windows_sound("Glass"), "Asterisk");
}

#[test]
fn api_keys_saved_and_loaded() {
    assert_eq!(choose_persisted_key(" gsk_env ", "gsk_file"), "gsk_env");
    assert_eq!(choose_persisted_key("", " gsk_file\n"), "gsk_file");
    assert_eq!(choose_persisted_key("xai-1", "gsk_file"), "gsk_file");
    let saved = check_key_to_save("  gsk_new  ").unwrap();
    assert_eq!(saved, "gsk_new");
    assert_eq!(choose_persisted_key("", &saved), "gsk_new");
    assert_eq!(check_key_to_save("   "), Ok(String::new()));
    assert_eq!(
        check_key_to_save("xai-abc"),
        Err("Mighty Voice currently uses Groq for voice transcription. Save a Groq key starting with gsk_, or clear the field. xAI keys cannot be sent to Groq.".to_string())
    );
    let st = api_key_status("", &saved, "", "p.txt".to_string());
    assert!(st.has_key);
    assert_eq!(st.source, "settings_file");
    assert_eq!(st.path, "p.txt");
    let st = api_key_status("gsk_e", "", "", String::new());
    assert_eq!(st.source, "environment");
    let st = api_key_status("", "", " gsk_c", String::new());
    assert_eq!(st.source, "current_session");
    let st = api_key_status("", "xai-1", "", String::new());
    assert!(!st.has_key);
    assert_eq!(st.source, "none");
}
