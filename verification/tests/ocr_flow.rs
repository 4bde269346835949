use dictationapp::ocr::{
    LocalOutcome, OcrAction, OcrEvent, OcrImage, OcrNotice, OcrPath, OcrRun, OcrSettings,
    OcrStage,
};

fn settings(speed: &str, translate: bool, copy_mode: &str) -> OcrSettings {
    OcrSettings {
        ocr_hotkey: "CmdOrCtrl+Shift+2".to_string(),
        ocr_language: "auto".to_string(),
        translate_enabled: translate,
        translate_target: "es".to_string(),
        copy_mode: copy_mode.to_string(),
        image_format: "png".to_string(),
        jpeg_quality: 90,
        speed_mode: speed.to_string(),
    }
}

#[test]
fn cloud_run_copies_recognized_text() {
    let (mut run, step) = OcrRun::start(&settings("fast", false, "original"), " gsk_key ", true);
    assert_eq!(run.api_key, "gsk_key");
    assert!(run.has_cloud_key);
    assert!(!run.local_first);
    assert!(matches!(step.action, OcrAction::Convert));
    assert!(step.notice.is_none());
    let step = run.step(OcrEvent::Converted(Ok(())));
    assert!(matches!(step.action, OcrAction::CallCloud(OcrImage::Encoded)));
    assert_eq!(run.stage, OcrStage::Cloud);
    let step = run.step(OcrEvent::CloudDone(Ok("Hello world".to_string())));
    match step.action {
        OcrAction::Copy(t) => assert_eq!(t, "Hello world"),
        other => panic!("unexpected {:?}", other),
    }
    let step = run.step(OcrEvent::Copied(Ok(())));
    match step.action {
        OcrAction::Finish { text, path } => {
            assert_eq!(text, "Hello world");
            assert_eq!(path, OcrPath::Cloud);
        }
        other => panic!("unexpected {:?}", other),
    }
    assert_eq!(run.stage, OcrStage::Done);
}

#[test]
fn cloud_speed_without_key_is_refused() {
    let (run, step) = OcrRun::start(&settings("balanced", false, "original"), "", true);
    assert_eq!(run.stage, OcrStage::Done);
    match step.action {
        OcrAction::Fail(m) => assert_eq!(
            m,
            "Cloud API key is missing or invalid. Add a Groq key starting with gsk_, add an xAI key starting with xai-, or switch OCR Speed to Local."
        ),
        other => panic!("unexpected {:?}", other),
    }
    assert!(step.notice.is_none());
}

#[test]
fn unsupported_key_is_ignored_with_notice() {
    let (run, step) = OcrRun::start(&settings("local", false, "original"), "sk-openai", true);
    assert!(!run.has_cloud_key);
    assert!(run.local_first);
    assert!(matches!(step.action, OcrAction::Convert));
    assert!(matches!(step.notice, Some(OcrNotice::UnsupportedKeyIgnored)));
}

#[test]
fn local_speed_without_local_ocr_uses_cloud() {
    let (mut run, _) = OcrRun::start(&settings("local", false, "original"), "xai-key", false);
    assert!(!run.local_first);
    let step = run.step(OcrEvent::Converted(Ok(())));
    assert!(matches!(step.action, OcrAction::CallCloud(OcrImage::Encoded)));
}

#[test]
fn weak_local_text_is_retried_once_then_fails_without_key() {
    let (mut run, _) = OcrRun::start(&settings("local", false, "original"), "", true);
    let step = run.step(OcrEvent::Converted(Ok(())));
    assert!(matches!(step.action, OcrAction::RunLocal(OcrImage::Encoded)));
    let step = run.step(OcrEvent::LocalDone(LocalOutcome::Text("ok".to_string())));
    assert!(matches!(step.action, OcrAction::Enhance));
    assert!(matches!(step.notice, Some(OcrNotice::LocalWeak)));
    let step = run.step(OcrEvent::Enhanced(Ok(())));
    assert!(matches!(step.action, OcrAction::RunLocal(OcrImage::Retry)));
    let step = run.step(OcrEvent::RetryDone(LocalOutcome::Text("x".to_string())));
    assert!(matches!(step.notice, Some(OcrNotice::RetryWeak)));
    match step.action {
        OcrAction::Fail(m) => assert_eq!(
            m,
            "Local OCR returned no text, and no supported cloud fallback key is saved. Add a Groq gsk_ key, an xAI xai- key, or try a clearer/larger text region."
        ),
        other => panic!("unexpected {:?}", other),
    }
    assert_eq!(run.path, OcrPath::CloudFallback);
}

#[test]
fn weak_retry_falls_back_to_cloud_with_key() {
    let (mut run, _) = OcrRun::start(&settings("local", false, "original"), "gsk_k", true);
    run.step(OcrEvent::Converted(Ok(())));
    run.step(OcrEvent::LocalDone(LocalOutcome::Text("".to_string())));
    run.step(OcrEvent::Enhanced(Ok(())));
    let step = run.step(OcrEvent::RetryDone(LocalOutcome::Failed("boom".to_string())));
    assert!(matches!(step.action, OcrAction::CallCloud(OcrImage::Retry)));
    let step = run.step(OcrEvent::CloudDone(Ok("Recovered text".to_string())));
    assert!(matches!(step.action, OcrAction::Copy(_)));
    let step = run.step(OcrEvent::Copied(Ok(())));
    match step.action {
        OcrAction::Finish { text, path } => {
            assert_eq!(text, "Recovered text");
            assert_eq!(path, OcrPath::CloudFallback);
        }
        other => panic!("unexpected {:?}", other),
    }
}

#[test]
fn good_local_text_is_copied_as_local() {
    let (mut run, _) = OcrRun::start(&settings("local", false, "original"), "", true);
    run.step(OcrEvent::Converted(Ok(())));
    let step = run.step(OcrEvent::LocalDone(LocalOutcome::Text("Invoice 2024".to_string())));
    match step.action {
        OcrAction::Copy(t) => assert_eq!(t, "Invoice 2024"),
        other => panic!("unexpected {:?}", other),
    }
    let step = run.step(OcrEvent::Copied(Ok(())));
    assert!(matches!(step.action, OcrAction::Finish { path: OcrPath::Local, .. }));
}

#[test]
fn local_failure_reports_and_falls_back() {
    let (mut run, _) = OcrRun::start(&settings("local", false, "original"), "gsk_k", true);
    run.step(OcrEvent::Converted(Ok(())));
    let step = run.step(OcrEvent::LocalDone(LocalOutcome::Failed("no engine".to_string())));
    assert!(matches!(step.action, OcrAction::CallCloud(OcrImage::Encoded)));
    match step.notice {
        Some(OcrNotice::LocalFailed(m)) => assert_eq!(m, "no engine"),
        other => panic!("unexpected {:?}", other),
    }
    let (mut run, _) = OcrRun::start(&settings("local", false, "original"), "", true);
    run.step(OcrEvent::Converted(Ok(())));
    let step = run.step(OcrEvent::LocalDone(LocalOutcome::TaskFailed("join".to_string())));
    match step.action {
        OcrAction::Fail(m) => assert_eq!(
            m,
            "Local OCR failed, and no supported cloud fallback key is saved. Add a Groq gsk_ key, an xAI xai- key, or try a clearer/larger text region."
        ),
        other => panic!("unexpected {:?}", other),
    }
    assert!(matches!(step.notice, Some(OcrNotice::LocalTaskFailed(_))));
}

#[test]
fn enhancement_failure_falls_back() {
    let (mut run, _) = OcrRun::start(&settings("local", false, "original"), "", true);
    run.step(OcrEvent::Converted(Ok(())));
    run.step(OcrEvent::LocalDone(LocalOutcome::Text("..".to_string())));
    let step = run.step(OcrEvent::Enhanced(Err("decode".to_string())));
    match step.action {
        OcrAction::Fail(m) => assert_eq!(
            m,
            "Local OCR preprocessing failed, and no supported cloud fallback key is saved. Add a Groq gsk_ key, an xAI xai- key, or try a clearer/larger text region."
        ),
        other => panic!("unexpected {:?}", other),
    }
    match step.notice {
        Some(OcrNotice::RetryPrepFailed(m)) => assert_eq!(m, "decode"),
        other => panic!("unexpected {:?}", other),
    }
}

#[test]
fn translation_and_copy_both() {
    let (mut run, _) = OcrRun::start(&settings("accuracy", true, "both"), "gsk_k", true);
    run.step(OcrEvent::Converted(Ok(())));
    let step = run.step(OcrEvent::CloudDone(Ok("Hello".to_string())));
    assert!(matches!(step.action, OcrAction::Translate));
    assert!(matches!(step.notice, Some(OcrNotice::Translating)));
    let step = run.step(OcrEvent::Translated(Ok("Hola".to_string())));
    match step.action {
        OcrAction::Copy(t) => assert_eq!(t, "Hello\n\n---\n\nHola"),
        other => panic!("unexpected {:?}", other),
    }
    let step = run.step(OcrEvent::Copied(Err("locked".to_string())));
    match step.action {
        OcrAction::Fail(m) => assert_eq!(m, "Failed to write clipboard: locked"),
        other => panic!("unexpected {:?}", other),
    }
}

#[test]
fn errors_end_the_run() {
    let (mut run, _) = OcrRun::start(&settings("fast", false, "original"), "gsk_k", true);
    let step = run.step(OcrEvent::Converted(Err("bad image".to_string())));
    assert!(matches!(step.action, OcrAction::Fail(ref m) if m == "bad image"));
    assert_eq!(run.stage, OcrStage::Done);
    let (mut run, _) = OcrRun::start(&settings("fast", true, "original"), "gsk_k", true);
    run.step(OcrEvent::Converted(Ok(())));
    let step = run.step(OcrEvent::CloudDone(Err("HTTP 500".to_string())));
    assert!(matches!(step.action, OcrAction::Fail(ref m) if m == "HTTP 500"));
}
