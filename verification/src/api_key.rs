//! The Groq API key: which saved key is loaded, where the key comes from, and which keys
//! may be saved.
use vstd::prelude::*;
use crate::text::{starts_with, trim, trim_str};

verus! {

pub open spec fn groq_key(s: Seq<char>) -> bool {
    "gsk_"@.is_prefix_of(s)
}

/// The key loaded at start-up: the `GROQ_API_KEY` environment value when it is a Groq key,
/// else the saved key file's content, each trimmed.
pub fn choose_persisted_key(env_value: &str, file_value: &str) -> (r: String)
    ensures
        groq_key(trim(env_value@)) ==> r@ == trim(env_value@),
        !groq_key(trim(env_value@)) ==> r@ == trim(file_value@),
{
    let from_env = trim_str(env_value);
    if starts_with(from_env, "gsk_") {
        return String::from_str(from_env);
    }
    String::from_str(trim_str(file_value))
}

/// Whether a Groq key is available, where it comes from, and the key file's path.
#[derive(Debug)]
pub struct ApiKeyStatus {
    pub has_key: bool,
    /// `environment`, `settings_file`, `current_session` or `none`.
    pub source: String,
    pub path: String,
}

pub open spec fn key_source(env_value: Seq<char>, file_value: Seq<char>, current: Seq<char>) -> Seq<
    char,
> {
    if groq_key(trim(env_value)) {
        "environment"@
    } else if groq_key(trim(file_value)) {
        "settings_file"@
    } else if groq_key(trim(current)) {
        "current_session"@
    } else {
        "none"@
    }
}

/// The key status from the environment value, the key file's content and the key of the
/// running session: the first of them that holds a Groq key is the source.
pub fn api_key_status(env_value: &str, file_value: &str, current: &str, path: String) -> (r:
    ApiKeyStatus)
    ensures
        r.has_key == (groq_key(trim(env_value@)) || groq_key(trim(file_value@)) || groq_key(
            trim(current@),
        )),
        r.source@ == key_source(env_value@, file_value@, current@),
        r.path == path,
{
    let has_env = starts_with(trim_str(env_value), "gsk_");
    let has_file = starts_with(trim_str(file_value), "gsk_");
    let has_current = starts_with(trim_str(current), "gsk_");
    let source = if has_env {
        "environment"
    } else if has_file {
        "settings_file"
    } else if has_current {
        "current_session"
    } else {
        "none"
    };
    ApiKeyStatus { has_key: has_env || has_file || has_current, source: String::from_str(source), path }
}

pub open spec fn msg_key_rejected() -> Seq<char> {
    "Mighty Voice currently uses Groq for voice transcription. Save a Groq key starting with gsk_, or clear the field. xAI keys cannot be sent to Groq."@
}

/// The key to save: the trimmed key, which is empty (to clear the saved key) or a Groq
/// key; anything else is refused.
pub fn check_key_to_save(api_key: &str) -> (r: Result<String, String>)
    ensures
        (trim(api_key@).len() == 0 || groq_key(trim(api_key@))) ==> (r matches Ok(k) && k@ == trim(
            api_key@,
        )),
        !(trim(api_key@).len() == 0 || groq_key(trim(api_key@))) ==> (r matches Err(e) && e@
            == msg_key_rejected()),
{
    let key = trim_str(api_key);
    if !key.is_empty() && !starts_with(key, "gsk_") {
        return Err(
            String::from_str(
                "Mighty Voice currently uses Groq for voice transcription. Save a Groq key starting with gsk_, or clear the field. xAI keys cannot be sent to Groq.",
            ),
        );
    }
    Ok(String::from_str(key))
}

/// A key accepted for saving is the key loaded back from the key file at the next start
/// when the environment holds no Groq key, and a saved Groq key is reported as coming
/// from the settings file.
pub proof fn lemma_saved_key_loads_back(api_key: Seq<char>, env_value: Seq<char>, current: Seq<char>)
    requires
        trim(api_key).len() == 0 || groq_key(trim(api_key)),
        !groq_key(trim(env_value)),
    ensures
        trim(trim(api_key)) == trim(api_key),
        groq_key(trim(api_key)) ==> key_source(env_value, trim(api_key), current)
            == "settings_file"@,
{
    crate::text::lemma_trim_idempotent(api_key);
}

} // verus!
