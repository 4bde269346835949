//! Dictation through the cloud: the key check, the Whisper request options, the filter of
//! Whisper's silence hallucinations, and the prompts of the refining chat request.
use vstd::prelude::*;
use crate::text::{join2, starts_with, str_eq, trim, trim_str};

verus! {

pub open spec fn msg_key_missing() -> Seq<char> {
    "API key is missing. Add your key in Settings to continue."@
}

pub open spec fn msg_xai_key() -> Seq<char> {
    "xAI key saved successfully, but voice transcription still requires a Groq gsk_ audio key because xAI is not a Whisper audio transcription endpoint. Local OCR and supported xAI cloud OCR/chat features can still use xAI."@
}

pub open spec fn msg_unsupported_key() -> Seq<char> {
    "Unsupported API key. Use a Groq key starting with gsk_ or an xAI key starting with xai-."@
}

/// The key used for transcription: the trimmed key when it is a Groq key; an error for a
/// missing key, an xAI key, or any other key.
pub fn check_transcription_key(api_key: &str) -> (r: Result<String, String>)
    ensures
        trim(api_key@).len() == 0 ==> (r matches Err(e) && e@ == msg_key_missing()),
        trim(api_key@).len() != 0 && "xai-"@.is_prefix_of(trim(api_key@)) ==> (r matches Err(e)
            && e@ == msg_xai_key()),
        trim(api_key@).len() != 0 && !"xai-"@.is_prefix_of(trim(api_key@)) && !"gsk_"@.is_prefix_of(
            trim(api_key@),
        ) ==> (r matches Err(e) && e@ == msg_unsupported_key()),
        r is Ok <==> "gsk_"@.is_prefix_of(trim(api_key@)),
        r matches Ok(k) ==> k@ == trim(api_key@),
{
    let key = trim_str(api_key);
    proof {
        reveal_strlit("xai-");
        reveal_strlit("gsk_");
        if "xai-"@.is_prefix_of(key@) && "gsk_"@.is_prefix_of(key@) {
            assert(key@.subrange(0, 4)[0] == key@[0]);
            assert("xai-"@[0] == 'x');
            assert("gsk_"@[0] == 'g');
        }
    }
    if key.is_empty() {
        return Err(
            String::from_str("API key is missing. Add your key in Settings to continue."),
        );
    }
    if starts_with(key, "xai-") {
        return Err(
            String::from_str(
                "xAI key saved successfully, but voice transcription still requires a Groq gsk_ audio key because xAI is not a Whisper audio transcription endpoint. Local OCR and supported xAI cloud OCR/chat features can still use xAI.",
            ),
        );
    }
    if !starts_with(key, "gsk_") {
        return Err(
            String::from_str(
                "Unsupported API key. Use a Groq key starting with gsk_ or an xAI key starting with xai-.",
            ),
        );
    }
    Ok(String::from_str(key))
}

/// The language and prompt sent to Whisper.
#[derive(Clone, Copy, Debug)]
pub struct WhisperOptions {
    pub language: Option<&'static str>,
    /// Empty when no prompt is sent.
    pub prompt: &'static str,
}

pub open spec fn whisper_language(lang: Seq<char>) -> Option<Seq<char>> {
    if lang == "en"@ {
        Some("en"@)
    } else if lang == "yue"@ || lang == "zh"@ {
        Some("zh"@)
    } else if lang == "tl"@ {
        Some("tl"@)
    } else {
        None
    }
}

pub open spec fn whisper_prompt(lang: Seq<char>) -> Seq<char> {
    if lang == "yue"@ {
        "以下是一段日常的粵語（廣東話）對話："@
    } else if lang == "zh"@ {
        "以下是一段日常的普通話對話："@
    } else {
        ""@
    }
}

/// Whisper's language and prompt for the app's language: Cantonese and Mandarin are sent
/// as `zh` with a prompt in the right script; unknown languages are left to detection.
pub fn whisper_options(current_lang: &str) -> (r: WhisperOptions)
    ensures
        match (r.language, whisper_language(current_lang@)) {
            (Some(a), Some(b)) => a@ == b,
            (None, None) => true,
            _ => false,
        },
        r.prompt@ == whisper_prompt(current_lang@),
{
    proof {
        reveal_strlit("en");
        reveal_strlit("yue");
        reveal_strlit("zh");
        reveal_strlit("tl");
        assert("en"@[0] != "zh"@[0]);
        assert("tl"@[0] != "zh"@[0]);
    }
    if str_eq(current_lang, "en") {
        WhisperOptions { language: Some("en"), prompt: "" }
    } else if str_eq(current_lang, "yue") {
        WhisperOptions { language: Some("zh"), prompt: "以下是一段日常的粵語（廣東話）對話：" }
    } else if str_eq(current_lang, "zh") {
        WhisperOptions { language: Some("zh"), prompt: "以下是一段日常的普通話對話：" }
    } else if str_eq(current_lang, "tl") {
        WhisperOptions { language: Some("tl"), prompt: "" }
    } else {
        WhisperOptions { language: None, prompt: "" }
    }
}

/// `str::to_lowercase` (Unicode lower-casing).
pub uninterp spec fn lowercase(s: Seq<char>) -> Seq<char>;

/// Calls `str::to_lowercase`; the result is `lowercase(s)`.
#[verifier::external_body]
fn to_lowercase(s: &str) -> (r: String)
    ensures
        r@ == lowercase(s@),
{
    s.to_lowercase()
}

/// `t` is `phrase`, with or without a final period.
pub open spec fn is_phrase(t: Seq<char>, phrase: Seq<char>) -> bool {
    t == phrase || t == phrase + "."@
}

fn matches_phrase(t: &str, phrase: &str) -> (r: bool)
    ensures
        r == is_phrase(t@, phrase@),
{
    if str_eq(t, phrase) {
        return true;
    }
    let dotted = join2(phrase, ".");
    str_eq(t, dotted.as_str())
}

/// What Whisper makes of silence or noise, lower-cased.
pub open spec fn whisper_hallucination(t: Seq<char>) -> bool {
    ||| is_phrase(t, "thank you for watching"@)
    ||| is_phrase(t, "thanks for watching"@)
    ||| is_phrase(t, "thank you."@)
    ||| is_phrase(t, "thanks."@)
    ||| is_phrase(t, "you"@)
    ||| is_phrase(t, "."@)
    ||| is_phrase(t, "..."@)
    ||| is_phrase(t, "please subscribe"@)
    ||| is_phrase(t, "like and subscribe"@)
    ||| is_phrase(t, "see you next time"@)
    ||| is_phrase(t, "bye"@)
    ||| is_phrase(t, "bye."@)
    ||| is_phrase(t, "thank you for listening"@)
    ||| is_phrase(t, "thanks for listening"@)
    ||| is_phrase(t, "subtitles by"@)
    ||| is_phrase(t, "transcribed by"@)
    ||| is_phrase(t, "translated by"@)
    ||| is_phrase(t, "www."@)
    ||| is_phrase(t, ".com"@)
    ||| is_phrase(t, "subscribe"@)
    ||| is_phrase(t, "♪"@)
    ||| is_phrase(t, "[ silence ]"@)
    ||| is_phrase(t, "[silence]"@)
    ||| is_phrase(t, "[ music ]"@)
    ||| is_phrase(t, "[music]"@)
    ||| is_phrase(t, "[ blank audio ]"@)
}

/// Whether a trimmed, lower-cased transcription is a known Whisper hallucination.
pub fn is_hallucination(t: &str) -> (r: bool)
    ensures
        r == whisper_hallucination(t@),
{
    matches_phrase(t, "thank you for watching") || matches_phrase(t, "thanks for watching")
        || matches_phrase(t, "thank you.") || matches_phrase(t, "thanks.") || matches_phrase(
        t,
        "you",
    ) || matches_phrase(t, ".") || matches_phrase(t, "...") || matches_phrase(
        t,
        "please subscribe",
    ) || matches_phrase(t, "like and subscribe") || matches_phrase(t, "see you next time")
        || matches_phrase(t, "bye") || matches_phrase(t, "bye.") || matches_phrase(
        t,
        "thank you for listening",
    ) || matches_phrase(t, "thanks for listening") || matches_phrase(t, "subtitles by")
        || matches_phrase(t, "transcribed by") || matches_phrase(t, "translated by")
        || matches_phrase(t, "www.") || matches_phrase(t, ".com") || matches_phrase(
        t,
        "subscribe",
    ) || matches_phrase(t, "♪") || matches_phrase(t, "[ silence ]") || matches_phrase(
        t,
        "[silence]",
    ) || matches_phrase(t, "[ music ]") || matches_phrase(t, "[music]") || matches_phrase(
        t,
        "[ blank audio ]",
    )
}

pub open spec fn prompt_transform_selection() -> Seq<char> {
    "You are an intelligent text editor. The user has selected some text and given a spoken instruction. Apply the instruction to transform the selected text.
RULES:
1. Output ONLY the final transformed text.
2. NO preamble, NO explanation, NO quotes.
3. If the instruction is in Chinese or Tagalog, apply it correctly to the text. Ensure formatting is clean."@
}

pub open spec fn prompt_format_request() -> Seq<char> {
    "You are a prompt formatting engine. Take the raw dictated text and rewrite it as a clear, direct, and well-structured prompt for an AI assistant.
RULES:
1. Output ONLY the rewritten prompt. NO preamble, NO explanation, NO meta-commentary.
2. NEVER say 'please provide more context' or refuse to answer. Work with exactly what was said.
3. Keep the same language(s) as the input. If it is Tagalog, output Tagalog. If it is mixed English/Chinese, keep it mixed.
4. If the input is short or vague, make it a concise direct question or instruction.
5. Do NOT answer the question. Only reformat it into a good prompt."@
}

pub open spec fn prompt_verbatim() -> Seq<char> {
    "You are a VERBATIM DICTATION engine. A user spoke into a microphone and the speech was transcribed. Your job is to clean up the transcription ONLY — fix punctuation, capitalization, and obvious speech recognition errors.

ABSOLUTE RULES:
1. Output ONLY the cleaned dictation text. Nothing else.
2. NEVER answer, respond to, or comment on the content — even if it sounds like a question.
3. NEVER translate. If Cantonese is spoken (e.g. 喺, 咁, 咗, 唔, 係), output Cantonese. If Tagalog/Filipino is spoken, output Tagalog. If Mandarin, output Mandarin. Keep it exactly in the spoken language.
4. NEVER add any preamble, explanation, or meta-commentary.
5. If the input is a question like \"what is X?\", output exactly \"What is X?\" — do not answer it.
6. Remove any hallucinations like 'Thanks for watching' or 'Please subscribe'."@
}

/// The system prompt and user message of the refining request.
#[derive(Debug)]
pub struct RefineRequest {
    pub system_prompt: String,
    pub user_message: String,
}

/// What follows a transcription.
#[derive(Debug)]
pub enum TranscriptOutcome {
    /// Nothing was said: the dictation result is empty.
    Empty,
    /// Refine the transcription with this request.
    Refine(RefineRequest),
}

pub open spec fn refine_system_prompt(is_intent_mode: bool, has_selection: bool) -> Seq<char> {
    if is_intent_mode && has_selection {
        prompt_transform_selection()
    } else if is_intent_mode {
        prompt_format_request()
    } else {
        prompt_verbatim()
    }
}

pub open spec fn refine_user_message(
    is_intent_mode: bool,
    selected_text: Option<Seq<char>>,
    transcription: Seq<char>,
) -> Seq<char> {
    if is_intent_mode {
        match selected_text {
            Some(sel) => "Selected text:\n"@ + sel + "\n\nInstruction: "@ + transcription,
            None => transcription,
        }
    } else {
        "Transcribed speech (clean up only, do NOT answer):\n"@ + transcription
    }
}

/// The refining request for a transcription: in command mode it transforms the selected
/// text, or reformats the dictation as a prompt; otherwise it cleans up the dictation.
pub fn refine_request(is_intent_mode: bool, selected_text: Option<&str>, transcription: &str) -> (r:
    RefineRequest)
    ensures
        r.system_prompt@ == refine_system_prompt(is_intent_mode, selected_text is Some),
        r.user_message@ == refine_user_message(
            is_intent_mode,
            match selected_text {
                Some(s) => Some(s@),
                None => None,
            },
            transcription@,
        ),
{
    if is_intent_mode {
        match selected_text {
            Some(sel) => {
                let mut msg = String::from_str("Selected text:\n");
                msg.append(sel);
                msg.append("\n\nInstruction: ");
                msg.append(transcription);
                RefineRequest {
                    system_prompt: String::from_str(
                        "You are an intelligent text editor. The user has selected some text and given a spoken instruction. Apply the instruction to transform the selected text.
RULES:
1. Output ONLY the final transformed text.
2. NO preamble, NO explanation, NO quotes.
3. If the instruction is in Chinese or Tagalog, apply it correctly to the text. Ensure formatting is clean.",
                    ),
                    user_message: msg,
                }
            },
            None => RefineRequest {
                system_prompt: String::from_str(
                    "You are a prompt formatting engine. Take the raw dictated text and rewrite it as a clear, direct, and well-structured prompt for an AI assistant.
RULES:
1. Output ONLY the rewritten prompt. NO preamble, NO explanation, NO meta-commentary.
2. NEVER say 'please provide more context' or refuse to answer. Work with exactly what was said.
3. Keep the same language(s) as the input. If it is Tagalog, output Tagalog. If it is mixed English/Chinese, keep it mixed.
4. If the input is short or vague, make it a concise direct question or instruction.
5. Do NOT answer the question. Only reformat it into a good prompt.",
                ),
                user_message: String::from_str(transcription),
            },
        }
    } else {
        RefineRequest {
            system_prompt: String::from_str(
                "You are a VERBATIM DICTATION engine. A user spoke into a microphone and the speech was transcribed. Your job is to clean up the transcription ONLY — fix punctuation, capitalization, and obvious speech recognition errors.

ABSOLUTE RULES:
1. Output ONLY the cleaned dictation text. Nothing else.
2. NEVER answer, respond to, or comment on the content — even if it sounds like a question.
3. NEVER translate. If Cantonese is spoken (e.g. 喺, 咁, 咗, 唔, 係), output Cantonese. If Tagalog/Filipino is spoken, output Tagalog. If Mandarin, output Mandarin. Keep it exactly in the spoken language.
4. NEVER add any preamble, explanation, or meta-commentary.
5. If the input is a question like \"what is X?\", output exactly \"What is X?\" — do not answer it.
6. Remove any hallucinations like 'Thanks for watching' or 'Please subscribe'.",
            ),
            user_message: join2("Transcribed speech (clean up only, do NOT answer):\n", transcription),
        }
    }
}

/// Decides what follows a transcription: an empty result for blank speech or a known
/// Whisper hallucination (compared trimmed and lower-cased), else the refining request.
pub fn after_transcription(
    transcription: &str,
    is_intent_mode: bool,
    selected_text: Option<&str>,
) -> (r: TranscriptOutcome)
    ensures
        (trim(transcription@).len() == 0 || whisper_hallucination(
            lowercase(trim(transcription@)),
        )) ==> r is Empty,
        !(trim(transcription@).len() == 0 || whisper_hallucination(
            lowercase(trim(transcription@)),
        )) ==> (r matches TranscriptOutcome::Refine(req) && req.system_prompt@
            == refine_system_prompt(is_intent_mode, selected_text is Some) && req.user_message@
            == refine_user_message(
            is_intent_mode,
            match selected_text {
                Some(s) => Some(s@),
                None => None,
            },
            transcription@,
        )),
{
    let t = trim_str(transcription);
    if t.is_empty() {
        return TranscriptOutcome::Empty;
    }
    let lowered = to_lowercase(t);
    if is_hallucination(lowered.as_str()) {
        return TranscriptOutcome::Empty;
    }
    TranscriptOutcome::Refine(refine_request(is_intent_mode, selected_text, transcription))
}

/// The dictation result: the refined text, or the raw transcription when the reply has
/// none, trimmed.
pub fn refined_output(content: Option<&str>, transcription: &str) -> (r: String)
    ensures
        content matches Some(c) ==> r@ == trim(c@),
        content is None ==> r@ == trim(transcription@),
{
    let text = match content {
        Some(c) => c,
        None => transcription,
    };
    String::from_str(trim_str(text))
}


/// Every phrase Whisper is known to make of silence or noise is recognised, as it stands and
/// with a final period: a transcription that trims and lower-cases to one of them gives no
/// dictation result.
pub proof fn lemma_known_hallucinations_recognised()
    ensures
        whisper_hallucination("thank you for watching"@),
        whisper_hallucination("thank you for watching"@ + "."@),
        whisper_hallucination("thanks for watching"@),
        whisper_hallucination("thanks for watching"@ + "."@),
        whisper_hallucination("thank you."@),
        whisper_hallucination("thank you."@ + "."@),
        whisper_hallucination("thanks."@),
        whisper_hallucination("thanks."@ + "."@),
        whisper_hallucination("you"@),
        whisper_hallucination("you"@ + "."@),
        whisper_hallucination("."@),
        whisper_hallucination("."@ + "."@),
        whisper_hallucination("..."@),
        whisper_hallucination("..."@ + "."@),
        whisper_hallucination("please subscribe"@),
        whisper_hallucination("please subscribe"@ + "."@),
        whisper_hallucination("like and subscribe"@),
        whisper_hallucination("like and subscribe"@ + "."@),
        whisper_hallucination("see you next time"@),
        whisper_hallucination("see you next time"@ + "."@),
        whisper_hallucination("bye"@),
        whisper_hallucination("bye"@ + "."@),
        whisper_hallucination("bye."@),
        whisper_hallucination("bye."@ + "."@),
        whisper_hallucination("thank you for listening"@),
        whisper_hallucination("thank you for listening"@ + "."@),
        whisper_hallucination("thanks for listening"@),
        whisper_hallucination("thanks for listening"@ + "."@),
        whisper_hallucination("subtitles by"@),
        whisper_hallucination("subtitles by"@ + "."@),
        whisper_hallucination("transcribed by"@),
        whisper_hallucination("transcribed by"@ + "."@),
        whisper_hallucination("translated by"@),
        whisper_hallucination("translated by"@ + "."@),
        whisper_hallucination("www."@),
        whisper_hallucination("www."@ + "."@),
        whisper_hallucination(".com"@),
        whisper_hallucination(".com"@ + "."@),
        whisper_hallucination("subscribe"@),
        whisper_hallucination("subscribe"@ + "."@),
        whisper_hallucination("♪"@),
        whisper_hallucination("♪"@ + "."@),
        whisper_hallucination("[ silence ]"@),
        whisper_hallucination("[ silence ]"@ + "."@),
        whisper_hallucination("[silence]"@),
        whisper_hallucination("[silence]"@ + "."@),
        whisper_hallucination("[ music ]"@),
        whisper_hallucination("[ music ]"@ + "."@),
        whisper_hallucination("[music]"@),
        whisper_hallucination("[music]"@ + "."@),
        whisper_hallucination("[ blank audio ]"@),
        whisper_hallucination("[ blank audio ]"@ + "."@),
{
}

} // verus!
