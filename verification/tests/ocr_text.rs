use dictationapp::ocr::{
    api_provider, b64, bgra_to_rgba, chat_endpoint, clipboard_image_png, cloud_ocr_text,
    compose_ocr_output, has_supported_cloud_key, image_data_url, is_weak_ocr_text,
    jpeg_quality, local_ocr_language, local_ocr_output, needs_downscale, ocr_path_label,
    ocr_path_name, text_model_source, translate_user_prompt, translated_text, upload_mime,
    upload_plan, upload_profile, vision_model_source, vision_user_prompt, wants_jpeg, OcrPath,
    OcrSettings,
};

#[test]
fn weak_ocr_detection_flags_empty_or_tiny_output() {
    assert!(is_weak_ocr_text(""));
    assert!(is_weak_ocr_text("  ok  "));
    assert!(!is_weak_ocr_text("This is enough recognized text."));
}

#[test]
fn ocr_path_label_matches_status_text() {
    assert_eq!(ocr_path_label("local"), "Local OCR");
    assert_eq!(ocr_path_label("cloud"), "Cloud OCR");
    assert_eq!(ocr_path_label("cloud_fallback"), "Cloud Fallback");
}

#[test]
fn weak_text_counts_unicode_alphanumerics() {
    assert!(!is_weak_ocr_text("日本語です"));
    assert!(is_weak_ocr_text("  !!! ... ---  "));
    assert!(is_weak_ocr_text("a b c"));
    assert!(!is_weak_ocr_text("a b c d"));
    assert!(is_weak_ocr_text(" \n\t "));
}

#[test]
fn path_names_feed_the_labels() {
    assert_eq!(ocr_path_label(ocr_path_name(OcrPath::Local)), "Local OCR");
    assert_eq!(ocr_path_label(ocr_path_name(OcrPath::Cloud)), "Cloud OCR");
    assert_eq!(ocr_path_label(ocr_path_name(OcrPath::CloudFallback)), "Cloud Fallback");
    assert_eq!(ocr_path_label("anything else"), "Cloud OCR");
}

#[test]
fn base64_matches_the_standard_alphabet() {
    assert_eq!(b64(b""), "");
    assert_eq!(b64(b"M"), "TQ==");
    assert_eq!(b64(b"Ma"), "TWE=");
    assert_eq!(b64(b"Man"), "TWFu");
    assert_eq!(b64(b"Hello, world!"), "SGVsbG8sIHdvcmxkIQ==");
    assert_eq!(b64(&[0xff, 0xfe, 0xfd, 0x00]), "//79AA==");
    let data: Vec<u8> = (0u8..=255).collect();
    let encoded = b64(&data);
    assert_eq!(encoded.len(), (data.len() + 2) / 3 * 4);
}

#[test]
fn data_url_wraps_base64() {
    assert_eq!(image_data_url("image/png", b"Man"), "data:image/png;base64,TWFu");
}

#[test]
fn providers_follow_key_prefix() {
    assert_eq!(api_provider("gsk_abc"), "groq");
    assert_eq!(api_provider("xai-abc"), "xai");
    assert_eq!(api_provider("sk-abc"), "none");
    assert!(has_supported_cloud_key("gsk_1"));
    assert!(has_supported_cloud_key("xai-1"));
    assert!(!has_supported_cloud_key(""));
    assert!(!has_supported_cloud_key("GSK_1"));
    assert_eq!(chat_endpoint("xai-1"), "https://api.x.ai/v1/chat/completions");
    assert_eq!(chat_endpoint("gsk_1"), "https://api.groq.com/openai/v1/chat/completions");
    let v = vision_model_source("xai-1");
    assert_eq!(v.env_var, Some("XAI_VISION_MODEL"));
    assert_eq!(v.default, "grok-2-vision-1212");
    let v = vision_model_source("gsk_1");
    assert_eq!(v.env_var, Some("GROQ_VISION_MODEL"));
    assert_eq!(v.default, "meta-llama/llama-4-scout-17b-16e-instruct");
    let t = text_model_source("xai-1");
    assert_eq!(t.env_var, Some("XAI_TEXT_MODEL"));
    assert_eq!(t.default, "grok-3-mini");
    let t = text_model_source("gsk_1");
    assert_eq!(t.env_var, None);
    assert_eq!(t.default, "llama-3.3-70b-versatile");
}

#[test]
fn request_texts() {
    assert_eq!(
        vision_user_prompt("auto"),
        "OCR this screenshot. Language hint: auto-detect. Return only extracted text."
    );
    assert_eq!(
        vision_user_prompt("ja"),
        "OCR this screenshot. Language hint: ja. Return only extracted text."
    );
    assert_eq!(translate_user_prompt("en", "Hola"), "Target language: en\n\nText:\nHola");
}

#[test]
fn reply_texts_are_trimmed() {
    assert_eq!(cloud_ocr_text(Some("  Hello \n")), Some("Hello".to_string()));
    assert_eq!(cloud_ocr_text(Some(" \n ")), None);
    assert_eq!(cloud_ocr_text(None), None);
    assert_eq!(translated_text(Some(" Hola ")), "Hola");
    assert_eq!(translated_text(None), "");
}

#[test]
fn copy_modes_compose_output() {
    let t = Some("Hola".to_string());
    assert_eq!(compose_ocr_output("original", "Hello", &t), "Hello");
    assert_eq!(compose_ocr_output("translated", "Hello", &t), "Hola");
    assert_eq!(compose_ocr_output("translated", "Hello", &None), "Hello");
    assert_eq!(compose_ocr_output("both", "Hello", &t), "Hello\n\n---\n\nHola");
    assert_eq!(compose_ocr_output("both", "Hello", &None), "Hello");
}

fn settings(speed: &str, format: &str, quality: u8) -> OcrSettings {
    OcrSettings {
        ocr_hotkey: "CmdOrCtrl+Shift+2".to_string(),
        ocr_language: "auto".to_string(),
        translate_enabled: false,
        translate_target: "en".to_string(),
        copy_mode: "original".to_string(),
        image_format: format.to_string(),
        jpeg_quality: quality,
        speed_mode: speed.to_string(),
    }
}

#[test]
fn ocr_settings_defaults() {
    let s = OcrSettings::default();
    assert_eq!(s.ocr_hotkey, "CmdOrCtrl+Shift+2");
    assert_eq!(s.ocr_language, "auto");
    assert!(!s.translate_enabled);
    assert_eq!(s.translate_target, "en");
    assert_eq!(s.copy_mode, "original");
    assert_eq!(s.image_format, "png");
    assert_eq!(s.jpeg_quality, 90);
    assert_eq!(s.speed_mode, "local");
}

#[test]
fn upload_plans_by_speed_mode() {
    let p = upload_profile("fast");
    assert_eq!((p.max_edge, p.force_jpeg, p.default_quality), (1280, true, 65));
    let p = upload_profile("accuracy");
    assert_eq!((p.max_edge, p.force_jpeg, p.default_quality), (2200, false, 92));
    let p = upload_profile("local");
    assert_eq!((p.max_edge, p.force_jpeg, p.default_quality), (2200, false, 90));
    let p = upload_profile("whatever");
    assert_eq!((p.max_edge, p.force_jpeg, p.default_quality), (1700, false, 78));

    let plan = upload_plan(&settings("fast", "png", 0));
    assert_eq!(plan.max_edge, 1280);
    assert_eq!(plan.jpeg_quality, Some(65));
    assert_eq!(upload_mime(&plan), "image/jpeg");

    let plan = upload_plan(&settings("accuracy", "JPG", 150));
    assert_eq!(plan.max_edge, 2200);
    assert_eq!(plan.jpeg_quality, Some(100));

    let plan = upload_plan(&settings("balanced", "png", 50));
    assert_eq!(plan.max_edge, 1700);
    assert_eq!(plan.jpeg_quality, None);
    assert_eq!(upload_mime(&plan), "image/png");

    assert!(wants_jpeg(false, "JpEg"));
    assert!(!wants_jpeg(false, "webp"));
    assert_eq!(jpeg_quality(0, 78), 78);
    assert_eq!(jpeg_quality(40, 78), 40);
    assert_eq!(jpeg_quality(255, 78), 100);
    assert!(needs_downscale(1281, 10, 1280));
    assert!(needs_downscale(10, 1281, 1280));
    assert!(!needs_downscale(1280, 1280, 1280));
}

#[test]
fn local_ocr_script_inputs_and_output() {
    assert_eq!(local_ocr_language("auto"), "");
    assert_eq!(local_ocr_language("en-US"), "en-US");
    assert_eq!(local_ocr_language("it's"), "it''s");
    assert_eq!(local_ocr_output("  text \r\n"), Ok("text".to_string()));
    assert_eq!(local_ocr_output(" \r\n"), Err("Local OCR returned empty text".to_string()));
}

#[test]
fn bgra_pixels_become_rgba() {
    assert_eq!(bgra_to_rgba(&[1, 2, 3, 4, 5, 6, 7, 8, 9]), vec![3, 2, 1, 4, 7, 6, 5, 8]);
    assert_eq!(bgra_to_rgba(&[1, 2]), Vec::<u8>::new());
}

#[test]
fn clipboard_image_becomes_png() {
    let bgra = [10u8, 20, 30, 255, 40, 50, 60, 128];
    let png = clipboard_image_png(2, 1, &bgra).unwrap();
    let img = image::load_from_memory(&png).unwrap().to_rgba8();
    assert_eq!(img.width(), 2);
    assert_eq!(img.height(), 1);
    assert_eq!(img.get_pixel(0, 0).0, [30, 20, 10, 255]);
    assert_eq!(img.get_pixel(1, 0).0, [60, 50, 40, 128]);
    assert_eq!(
        clipboard_image_png(3, 1, &bgra),
        Err("Failed to parse screenshot image bytes".to_string())
    );
}

#[test]
fn base64_of_joined_parts_when_first_is_whole_groups() {
    let a = b"abcdef";
    for b in [&b""[..], b"g", b"gh", b"ghi", b"ghij"] {
        let joined = [&a[..], b].concat();
        assert_eq!(b64(&joined), b64(a) + &b64(b));
    }
}
