use dictationapp::cloud::{
    after_transcription, check_transcription_key, is_hallucination, refine_request,
    refined_output, whisper_options, TranscriptOutcome,
};

#[test]
fn transcription_key_checks() {
    assert_eq!(
        check_transcription_key("   "),
        Err("API key is missing. Add your key in Settings to continue.".to_string())
    );
    assert_eq!(
        check_transcription_key(" xai-123 "),
        Err("xAI key saved successfully, but voice transcription still requires a Groq gsk_ audio key because xAI is not a Whisper audio transcription endpoint. Local OCR and supported xAI cloud OCR/chat features can still use xAI.".to_string())
    );
    assert_eq!(
        check_transcription_key("sk-123"),
        Err("Unsupported API key. Use a Groq key starting with gsk_ or an xAI key starting with xai-.".to_string())
    );
    assert_eq!(check_transcription_key("  gsk_abc \n"), Ok("gsk_abc".to_string()));
}

#[test]
fn whisper_language_and_prompt() {
    let o = whisper_options("en");
    assert_eq!((o.language, o.prompt), (Some("en"), ""));
    let o = whisper_options("yue");
    assert_eq!((o.language, o.prompt), (Some("zh"), "以下是一段日常的粵語（廣東話）對話："));
    let o = whisper_options("zh");
    assert_eq!((o.language, o.prompt), (Some("zh"), "以下是一段日常的普通話對話："));
    let o = whisper_options("tl");
    assert_eq!((o.language, o.prompt), (Some("tl"), ""));
    let o = whisper_options("fr");
    assert_eq!((o.language, o.prompt), (None, ""));
}

#[test]
fn known_hallucinations_are_recognized() {
    assert!(is_hallucination("thank you for watching"));
    assert!(is_hallucination("thank you for watching."));
    assert!(is_hallucination("you"));
    assert!(is_hallucination("[blank audio]") == false);
    assert!(is_hallucination("[ blank audio ]"));
    assert!(is_hallucination("♪"));
    assert!(!is_hallucination("thank you for watching my video"));
}

#[test]
fn blank_or_hallucinated_speech_gives_nothing() {
    assert!(matches!(after_transcription("   ", false, None), TranscriptOutcome::Empty));
    assert!(matches!(
        after_transcription("  Thank You For Watching.  ", false, None),
        TranscriptOutcome::Empty
    ));
    assert!(matches!(after_transcription("BYE.", true, Some("sel")), TranscriptOutcome::Empty));
}

#[test]
fn dictation_is_refined_verbatim() {
    match after_transcription("Hello there", false, None) {
        TranscriptOutcome::Refine(req) => {
            assert!(req.system_prompt.starts_with("You are a VERBATIM DICTATION engine."));
            assert_eq!(
                req.user_message,
                "Transcribed speech (clean up only, do NOT answer):\nHello there"
            );
        }
        TranscriptOutcome::Empty => panic!("speech was dropped"),
    }
}

#[test]
fn command_mode_requests() {
    let req = refine_request(true, Some("teh cat"), "fix the spelling");
    assert!(req.system_prompt.starts_with("You are an intelligent text editor."));
    assert_eq!(req.user_message, "Selected text:\nteh cat\n\nInstruction: fix the spelling");
    let req = refine_request(true, None, "what is rust");
    assert!(req.system_prompt.starts_with("You are a prompt formatting engine."));
    assert_eq!(req.user_message, "what is rust");
}

#[test]
fn refined_output_prefers_reply() {
    assert_eq!(refined_output(Some("  Hello.  "), "hello"), "Hello.");
    assert_eq!(refined_output(None, " hello "), "hello");
}
