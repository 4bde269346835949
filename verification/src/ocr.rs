//! OCR: settings, the checks on recognized text, the cloud request texts, the upload
//! encoding choices and the flow from a screenshot to the copied text.
use vstd::prelude::*;
use crate::powershell::{ps_quote, ps_quoted};
use crate::text::{chars_of, join2, push_char, starts_with, str_eq, to_ascii_lower, ascii_lower, trim, trim_str};

verus! {

/// User settings of the OCR tool.
#[derive(Clone, Debug)]
pub struct OcrSettings {
    pub ocr_hotkey: String,
    pub ocr_language: String,
    pub translate_enabled: bool,
    pub translate_target: String,
    /// `original`, `translated` or `both`.
    pub copy_mode: String,
    /// `png` or `jpeg`.
    pub image_format: String,
    /// 1 to 100; 0 picks the speed mode's quality.
    pub jpeg_quality: u8,
    /// `local`, `fast`, `balanced` or `accuracy`.
    pub speed_mode: String,
}

impl Default for OcrSettings {
    fn default() -> (r: Self)
        ensures
            r.ocr_hotkey@ == "CmdOrCtrl+Shift+2"@,
            r.ocr_language@ == "auto"@,
            !r.translate_enabled,
            r.translate_target@ == "en"@,
            r.copy_mode@ == "original"@,
            r.image_format@ == "png"@,
            r.jpeg_quality == 90,
            r.speed_mode@ == "local"@,
    {
        OcrSettings {
            ocr_hotkey: String::from_str("CmdOrCtrl+Shift+2"),
            ocr_language: String::from_str("auto"),
            translate_enabled: false,
            translate_target: String::from_str("en"),
            copy_mode: String::from_str("original"),
            image_format: String::from_str("png"),
            jpeg_quality: 90,
            speed_mode: String::from_str("local"),
        }
    }
}

/// `char::is_alphanumeric` (the Unicode `Alphabetic` and `Numeric` properties).
pub uninterp spec fn alphanumeric(c: char) -> bool;

/// Calls `char::is_alphanumeric`; the result is `alphanumeric(c)`, and, as its source and
/// documentation show, it is `true` for the ASCII letters and digits.
#[verifier::external_body]
fn is_alphanumeric(c: char) -> (r: bool)
    ensures
        r == alphanumeric(c),
        ascii_alnum(c) ==> r,
{
    c.is_alphanumeric()
}

/// Number of `true` entries.
pub open spec fn count_true(flags: Seq<bool>) -> nat
    decreases flags.len(),
{
    if flags.len() == 0 {
        0
    } else {
        count_true(flags.drop_last()) + if flags.last() {
            1nat
        } else {
            0nat
        }
    }
}

/// Number of alphanumeric characters in `s`.
pub open spec fn alphanumeric_count(s: Seq<char>) -> nat {
    count_true(s.map_values(|c: char| alphanumeric(c)))
}

/// Recognized text too poor to keep: empty after trimming, or fewer than four
/// alphanumeric characters.
pub open spec fn weak_ocr_text(s: Seq<char>) -> bool {
    trim(s).len() == 0 || alphanumeric_count(trim(s)) < 4
}

/// Whether fewer than four of the flags are set.
pub fn fewer_than_four(flags: &Vec<bool>) -> (r: bool)
    ensures
        r == (count_true(flags@) < 4),
{
    let n = flags.len();
    let mut count: usize = 0;
    let mut i: usize = 0;
    while i < n
        invariant
            n == flags.len(),
            i <= n,
            count == count_true(flags@.subrange(0, i as int)),
            count <= i,
        decreases n - i,
    {
        assert(flags@.subrange(0, i + 1).drop_last() =~= flags@.subrange(0, i as int));
        if flags[i] {
            count = count + 1;
        }
        i = i + 1;
    }
    assert(flags@.subrange(0, n as int) =~= flags@);
    count < 4
}

/// An ASCII letter or digit.
pub open spec fn ascii_alnum(c: char) -> bool {
    ('0' <= c && c <= '9') || ('a' <= c && c <= 'z') || ('A' <= c && c <= 'Z')
}

/// Whether recognized text is too weak to use (see `weak_ocr_text`). Text with four or more
/// ASCII letters or digits, once trimmed, is never weak.
pub fn is_weak_ocr_text(text: &str) -> (r: bool)
    ensures
        r == weak_ocr_text(text@),
        trim(text@).filter(|c: char| ascii_alnum(c)).len() >= 4 ==> !r,
{
    let trimmed = trim_str(text);
    let v = chars_of(trimmed);
    if v.len() == 0 {
        return true;
    }
    let n = v.len();
    let mut flags: Vec<bool> = Vec::new();
    let mut i: usize = 0;
    while i < n
        invariant
            n == v.len(),
            i <= n,
            flags@ =~= v@.subrange(0, i as int).map_values(|c: char| alphanumeric(c)),
            forall|k: int| 0 <= k < i ==> ascii_alnum(#[trigger] v@[k]) ==> alphanumeric(v@[k]),
        decreases n - i,
    {
        flags.push(is_alphanumeric(v[i]));
        i = i + 1;
    }
    assert(v@.subrange(0, n as int) =~= v@);
    proof {
        lemma_count_filter(v@);
        lemma_filter_implied(v@);
    }
    fewer_than_four(&flags)
}

proof fn lemma_count_filter(s: Seq<char>)
    ensures
        alphanumeric_count(s) == s.filter(|c: char| alphanumeric(c)).len(),
    decreases s.len(),
{
    reveal(Seq::filter);
    if s.len() > 0 {
        lemma_count_filter(s.drop_last());
        assert(s.map_values(|c: char| alphanumeric(c)).drop_last() =~= s.drop_last().map_values(
            |c: char| alphanumeric(c),
        ));
    }
}

proof fn lemma_filter_implied(s: Seq<char>)
    requires
        forall|k: int| 0 <= k < s.len() ==> ascii_alnum(#[trigger] s[k]) ==> alphanumeric(s[k]),
    ensures
        s.filter(|c: char| ascii_alnum(c)).len() <= s.filter(|c: char| alphanumeric(c)).len(),
    decreases s.len(),
{
    reveal(Seq::filter);
    if s.len() > 0 {
        let t = s.drop_last();
        assert forall|k: int| 0 <= k < t.len() implies ascii_alnum(#[trigger] t[k]) ==> alphanumeric(t[k]) by {
            assert(t[k] == s[k]);
        }
        lemma_filter_implied(t);
        assert(ascii_alnum(s[s.len() - 1]) ==> alphanumeric(s[s.len() - 1]));
    }
}

/// Weak text is text with fewer than four alphanumeric characters once trimmed: every
/// character for which `char::is_alphanumeric` holds counts, letters and digits alike,
/// and nothing else does.
pub proof fn lemma_weak_means_fewer_than_four_alphanumerics(s: Seq<char>)
    ensures
        weak_ocr_text(s) <==> trim(s).filter(|c: char| alphanumeric(c)).len() < 4,
        alphanumeric_count(s) == s.filter(|c: char| alphanumeric(c)).len(),
{
    lemma_count_filter(s);
    lemma_count_filter(trim(s));
    if trim(s).len() == 0 {
        reveal(Seq::filter);
    }
}

pub open spec fn ocr_path_label_text(path: Seq<char>) -> Seq<char> {
    if path == "local"@ {
        "Local OCR"@
    } else if path == "cloud_fallback"@ {
        "Cloud Fallback"@
    } else {
        "Cloud OCR"@
    }
}

/// The status label of the path that produced the OCR text.
pub fn ocr_path_label(path: &str) -> (r: &'static str)
    ensures
        r@ == ocr_path_label_text(path@),
{
    if str_eq(path, "local") {
        "Local OCR"
    } else if str_eq(path, "cloud_fallback") {
        "Cloud Fallback"
    } else {
        "Cloud OCR"
    }
}

pub open spec fn api_provider_name(api_key: Seq<char>) -> Seq<char> {
    if "gsk_"@.is_prefix_of(api_key) {
        "groq"@
    } else if "xai-"@.is_prefix_of(api_key) {
        "xai"@
    } else {
        "none"@
    }
}

/// The cloud provider a key belongs to, by its prefix: `groq`, `xai` or `none`.
pub fn api_provider(api_key: &str) -> (r: &'static str)
    ensures
        r@ == api_provider_name(api_key@),
{
    if starts_with(api_key, "gsk_") {
        "groq"
    } else if starts_with(api_key, "xai-") {
        "xai"
    } else {
        "none"
    }
}

pub open spec fn supported_cloud_key(api_key: Seq<char>) -> bool {
    "gsk_"@.is_prefix_of(api_key) || "xai-"@.is_prefix_of(api_key)
}

/// Whether the key is a Groq (`gsk_`) or xAI (`xai-`) key.
pub fn has_supported_cloud_key(api_key: &str) -> (r: bool)
    ensures
        r == supported_cloud_key(api_key@),
{
    let provider = api_provider(api_key);
    proof {
        reveal_strlit("groq");
        reveal_strlit("xai");
        reveal_strlit("none");
        assert("none"@[0] != "groq"@[0]);
        assert("none"@.len() != "xai"@.len());
    }
    str_eq(provider, "groq") || str_eq(provider, "xai")
}

pub open spec fn chat_endpoint_url(api_key: Seq<char>) -> Seq<char> {
    if "xai-"@.is_prefix_of(api_key) {
        "https://api.x.ai/v1/chat/completions"@
    } else {
        "https://api.groq.com/openai/v1/chat/completions"@
    }
}

/// The chat-completions endpoint of the key's provider.
pub fn chat_endpoint(api_key: &str) -> (r: &'static str)
    ensures
        r@ == chat_endpoint_url(api_key@),
{
    if starts_with(api_key, "xai-") {
        "https://api.x.ai/v1/chat/completions"
    } else {
        "https://api.groq.com/openai/v1/chat/completions"
    }
}

/// Where a model name comes from: an environment variable, if it is set, else a default.
pub struct ModelSource {
    pub env_var: Option<&'static str>,
    pub default: &'static str,
}

/// The vision model for the key's provider: xAI's from `XAI_VISION_MODEL`, Groq's from
/// `GROQ_VISION_MODEL`, each with its default.
pub fn vision_model_source(api_key: &str) -> (r: ModelSource)
    ensures
        "xai-"@.is_prefix_of(api_key@) ==> (r.env_var matches Some(v) && v@
            == "XAI_VISION_MODEL"@),
        "xai-"@.is_prefix_of(api_key@) ==> r.default@ == "grok-2-vision-1212"@,
        !"xai-"@.is_prefix_of(api_key@) ==> (r.env_var matches Some(v) && v@
            == "GROQ_VISION_MODEL"@),
        !"xai-"@.is_prefix_of(api_key@) ==> r.default@
            == "meta-llama/llama-4-scout-17b-16e-instruct"@,
{
    if starts_with(api_key, "xai-") {
        ModelSource { env_var: Some("XAI_VISION_MODEL"), default: "grok-2-vision-1212" }
    } else {
        ModelSource {
            env_var: Some("GROQ_VISION_MODEL"),
            default: "meta-llama/llama-4-scout-17b-16e-instruct",
        }
    }
}

/// The text model for the key's provider: xAI's from `XAI_TEXT_MODEL` with a default,
/// Groq's fixed.
pub fn text_model_source(api_key: &str) -> (r: ModelSource)
    ensures
        "xai-"@.is_prefix_of(api_key@) ==> (r.env_var matches Some(v) && v@ == "XAI_TEXT_MODEL"@),
        "xai-"@.is_prefix_of(api_key@) ==> r.default@ == "grok-3-mini"@,
        !"xai-"@.is_prefix_of(api_key@) ==> r.env_var is None && r.default@
            == "llama-3.3-70b-versatile"@,
{
    if starts_with(api_key, "xai-") {
        ModelSource { env_var: Some("XAI_TEXT_MODEL"), default: "grok-3-mini" }
    } else {
        ModelSource { env_var: None, default: "llama-3.3-70b-versatile" }
    }
}

/// The standard base64 alphabet: `A`–`Z`, `a`–`z`, `0`–`9`, `+`, `/`.
pub open spec fn b64_symbol(i: int) -> char {
    if i < 26 {
        (65 + i) as char
    } else if i < 52 {
        (97 + (i - 26)) as char
    } else if i < 62 {
        (48 + (i - 52)) as char
    } else if i == 62 {
        '+'
    } else {
        '/'
    }
}

/// Base64 of three bytes: their 24 bits as four 6-bit symbols.
pub open spec fn b64_group3(a: u8, b: u8, c: u8) -> Seq<char> {
    let (a, b, c) = (a as int, b as int, c as int);
    seq![
        b64_symbol(a / 4),
        b64_symbol((a % 4) * 16 + b / 16),
        b64_symbol((b % 16) * 4 + c / 64),
        b64_symbol(c % 64),
    ]
}

/// Base64 of a last group of two bytes, padded with one `=`.
pub open spec fn b64_group2(a: u8, b: u8) -> Seq<char> {
    let (a, b) = (a as int, b as int);
    seq![b64_symbol(a / 4), b64_symbol((a % 4) * 16 + b / 16), b64_symbol((b % 16) * 4), '=']
}

/// Base64 of a last single byte, padded with two `=`.
pub open spec fn b64_group1(a: u8) -> Seq<char> {
    let a = a as int;
    seq![b64_symbol(a / 4), b64_symbol((a % 4) * 16), '=', '=']
}

/// Base64 of whole three-byte groups, in order.
pub open spec fn b64_blocks(s: Seq<u8>) -> Seq<char>
    decreases s.len(),
{
    if s.len() < 3 {
        Seq::<char>::empty()
    } else {
        let k = s.len() - 3;
        b64_blocks(s.subrange(0, k)) + b64_group3(s[k], s[k + 1], s[k + 2])
    }
}

/// Standard padded base64 of `s`.
pub open spec fn b64_encoding(s: Seq<u8>) -> Seq<char> {
    let k = s.len() / 3 * 3;
    let body = b64_blocks(s.subrange(0, k as int));
    if s.len() - k == 1 {
        body + b64_group1(s[k as int])
    } else if s.len() - k == 2 {
        body + b64_group2(s[k as int], s[k + 1 as int])
    } else {
        body
    }
}

fn b64_char(i: u32) -> (r: char)
    requires
        i < 64,
    ensures
        r == b64_symbol(i as int),
{
    if i < 26 {
        ((65 + i) as u8) as char
    } else if i < 52 {
        ((97 + (i - 26)) as u8) as char
    } else if i < 62 {
        ((48 + (i - 52)) as u8) as char
    } else if i == 62 {
        '+'
    } else {
        '/'
    }
}

proof fn lemma_b64_bits(a: u8, b: u8, c: u8)
    ensures
        ({
            let n = ((a as u32) << 16u32) | ((b as u32) << 8u32) | (c as u32);
            &&& (n >> 18u32) & 63u32 == (a as u32) / 4
            &&& (n >> 12u32) & 63u32 == ((a as u32) % 4) * 16 + (b as u32) / 16
            &&& (n >> 6u32) & 63u32 == ((b as u32) % 16) * 4 + (c as u32) / 64
            &&& n & 63u32 == (c as u32) % 64
        }),
{
    assert({
        let n = ((a as u32) << 16u32) | ((b as u32) << 8u32) | (c as u32);
        &&& (n >> 18u32) & 63u32 == (a as u32) / 4
        &&& (n >> 12u32) & 63u32 == ((a as u32) % 4) * 16 + (b as u32) / 16
        &&& (n >> 6u32) & 63u32 == ((b as u32) % 16) * 4 + (c as u32) / 64
        &&& n & 63u32 == (c as u32) % 64
    }) by (bit_vector);
}

fn push_sextets(out: &mut String, n: u32, count: usize)
    requires
        1 <= count <= 4,
    ensures
        final(out)@ == old(out)@ + Seq::new(
            count as nat,
            |k: int| b64_symbol(((n >> ((18 - 6 * k) as u32)) & 63u32) as int),
        ),
{
    let ghost start = out@;
    let mut k: usize = 0;
    while k < count
        invariant
            k <= count <= 4,
            out@ == start + Seq::new(
                k as nat,
                |j: int| b64_symbol(((n >> ((18 - 6 * j) as u32)) & 63u32) as int),
            ),
        decreases count - k,
    {
        let shift: u32 = (18 - 6 * k) as u32;
        let idx = (n >> shift) & 63;
        assert(idx < 64) by (bit_vector)
            requires
                idx == (n >> shift) & 63u32,
        ;
        push_char(out, b64_char(idx));
        let ghost f = |j: int| b64_symbol(((n >> ((18 - 6 * j) as u32)) & 63u32) as int);
        assert(start + Seq::new((k + 1) as nat, f) =~= (start + Seq::new(k as nat, f)).push(
            f(k as int),
        ));
        k = k + 1;
    }
}

/// Standard padded base64 encoding of `input`.
pub fn b64(input: &[u8]) -> (r: String)
    ensures
        r@ == b64_encoding(input@),
{
    let mut out = String::new();
    let len = input.len();
    let mut i: usize = 0;
    while len - i >= 3
        invariant
            len == input@.len(),
            i <= len,
            i % 3 == 0,
            out@ == b64_blocks(input@.subrange(0, i as int)),
        decreases len - i,
    {
        let a = input[i];
        let b = input[i + 1];
        let c = input[i + 2];
        let n: u32 = ((a as u32) << 16) | ((b as u32) << 8) | (c as u32);
        proof {
            lemma_b64_bits(a, b, c);
        }
        push_sextets(&mut out, n, 4);
        proof {
            let next = input@.subrange(0, i + 3);
            assert(next.subrange(0, i as int) =~= input@.subrange(0, i as int));
            let f = |k: int| b64_symbol(((n >> ((18 - 6 * k) as u32)) & 63u32) as int);
            assert(f(0) == b64_symbol(((n >> 18u32) & 63u32) as int));
            assert(f(1) == b64_symbol(((n >> 12u32) & 63u32) as int));
            assert(f(2) == b64_symbol(((n >> 6u32) & 63u32) as int));
            assert(f(3) == b64_symbol(((n >> 0u32) & 63u32) as int));
            assert((n >> 0u32) == n) by (bit_vector);
            assert(Seq::new(4, f) =~= b64_group3(a, b, c));
        }
        i = i + 3;
    }
    let rem = len - i;
    proof {
        assert(i == len / 3 * 3);
    }
    if rem == 1 {
        let a = input[i];
        let n: u32 = (a as u32) << 16;
        proof {
            lemma_b64_bits(a, 0, 0);
            assert(n == ((a as u32) << 16u32) | ((0u8 as u32) << 8u32) | (0u8 as u32)) by (
            bit_vector)
                requires
                    n == (a as u32) << 16u32,
            ;
        }
        push_sextets(&mut out, n, 2);
        push_char(&mut out, '=');
        push_char(&mut out, '=');
        proof {
            assert(out@ =~= b64_blocks(input@.subrange(0, i as int)) + b64_group1(a));
        }
    } else if rem == 2 {
        let a = input[i];
        let b = input[i + 1];
        let n: u32 = ((a as u32) << 16) | ((b as u32) << 8);
        proof {
            lemma_b64_bits(a, b, 0);
            assert(n == ((a as u32) << 16u32) | ((b as u32) << 8u32) | (0u8 as u32)) by (
            bit_vector)
                requires
                    n == ((a as u32) << 16u32) | ((b as u32) << 8u32),
            ;
        }
        push_sextets(&mut out, n, 3);
        push_char(&mut out, '=');
        proof {
            assert(out@ =~= b64_blocks(input@.subrange(0, i as int)) + b64_group2(a, b));
        }
    }
    out
}

/// A `data:` URL carrying `bytes` of type `mime` in base64.
pub fn image_data_url(mime: &str, bytes: &[u8]) -> (r: String)
    ensures
        r@ == "data:"@ + mime@ + ";base64,"@ + b64_encoding(bytes@),
{
    let mut r = String::from_str("data:");
    r.append(mime);
    r.append(";base64,");
    let encoded = b64(bytes);
    r.append(encoded.as_str());
    r
}

pub open spec fn language_hint(lang: Seq<char>) -> Seq<char> {
    if lang == "auto"@ {
        "auto-detect"@
    } else {
        lang
    }
}

/// The user prompt of a cloud OCR request: the language hint, `auto-detect` for `auto`.
pub fn vision_user_prompt(lang: &str) -> (r: String)
    ensures
        r@ == "OCR this screenshot. Language hint: "@ + language_hint(lang@)
            + ". Return only extracted text."@,
{
    let hint = if str_eq(lang, "auto") {
        "auto-detect"
    } else {
        lang
    };
    let mut r = String::from_str("OCR this screenshot. Language hint: ");
    r.append(hint);
    r.append(". Return only extracted text.");
    r
}

/// The user message of a translation request.
pub fn translate_user_prompt(target_lang: &str, original: &str) -> (r: String)
    ensures
        r@ == "Target language: "@ + target_lang@ + "\n\nText:\n"@ + original@,
{
    let mut r = String::from_str("Target language: ");
    r.append(target_lang);
    r.append("\n\nText:\n");
    r.append(original);
    r
}

/// The text of a cloud OCR reply: the message content trimmed; `None` when there is
/// none or it is blank, which the OCR treats as a failure.
pub fn cloud_ocr_text(content: Option<&str>) -> (r: Option<String>)
    ensures
        content is None ==> r is None,
        content matches Some(c) ==> (if trim(c@).len() == 0 {
            r is None
        } else {
            r matches Some(t) && t@ == trim(c@)
        }),
{
    let c = match content {
        Some(c) => c,
        None => "",
    };
    proof {
        reveal_strlit("");
        assert(trim(""@) =~= Seq::<char>::empty());
    }
    let t = trim_str(c);
    if t.is_empty() {
        None
    } else {
        Some(String::from_str(t))
    }
}

/// The text of a translation reply: the message content trimmed, empty when there is none.
pub fn translated_text(content: Option<&str>) -> (r: String)
    ensures
        content is None ==> r@.len() == 0,
        content matches Some(c) ==> r@ == trim(c@),
{
    match content {
        Some(c) => String::from_str(trim_str(c)),
        None => String::new(),
    }
}

pub open spec fn ocr_output_text(
    copy_mode: Seq<char>,
    original: Seq<char>,
    translated: Option<Seq<char>>,
) -> Seq<char> {
    if copy_mode == "translated"@ {
        match translated {
            Some(t) => t,
            None => original,
        }
    } else if copy_mode == "both"@ {
        match translated {
            Some(t) => original + "\n\n---\n\n"@ + t,
            None => original,
        }
    } else {
        original
    }
}

pub open spec fn opt_view(o: Option<String>) -> Option<Seq<char>> {
    match o {
        Some(s) => Some(s@),
        None => None,
    }
}

/// The text the OCR copies, by copy mode: the translation, both texts, or the original.
pub fn compose_ocr_output(copy_mode: &str, original: &str, translated: &Option<String>) -> (r:
    String)
    ensures
        r@ == ocr_output_text(copy_mode@, original@, opt_view(*translated)),
{
    if str_eq(copy_mode, "translated") {
        match translated {
            Some(t) => t.clone(),
            None => String::from_str(original),
        }
    } else if str_eq(copy_mode, "both") {
        match translated {
            Some(t) => {
                let mut r = String::from_str(original);
                r.append("\n\n---\n\n");
                r.append(t.as_str());
                r
            },
            None => String::from_str(original),
        }
    } else {
        String::from_str(original)
    }
}

/// How an image is prepared for a cloud OCR request in one speed mode.
#[derive(Clone, Copy, Debug)]
pub struct UploadProfile {
    /// Images whose longer edge exceeds this are scaled down to it.
    pub max_edge: u32,
    /// Always send JPEG.
    pub force_jpeg: bool,
    /// JPEG quality when the settings leave it at 0.
    pub default_quality: u8,
}

pub open spec fn upload_profile_of(speed_mode: Seq<char>) -> UploadProfile {
    if speed_mode == "local"@ {
        UploadProfile { max_edge: 2200, force_jpeg: false, default_quality: 90 }
    } else if speed_mode == "fast"@ {
        UploadProfile { max_edge: 1280, force_jpeg: true, default_quality: 65 }
    } else if speed_mode == "accuracy"@ {
        UploadProfile { max_edge: 2200, force_jpeg: false, default_quality: 92 }
    } else {
        UploadProfile { max_edge: 1700, force_jpeg: false, default_quality: 78 }
    }
}

/// The upload profile of a speed mode; unknown modes are `balanced`.
pub fn upload_profile(speed_mode: &str) -> (r: UploadProfile)
    ensures
        r == upload_profile_of(speed_mode@),
{
    if str_eq(speed_mode, "local") {
        UploadProfile { max_edge: 2200, force_jpeg: false, default_quality: 90 }
    } else if str_eq(speed_mode, "fast") {
        UploadProfile { max_edge: 1280, force_jpeg: true, default_quality: 65 }
    } else if str_eq(speed_mode, "accuracy") {
        UploadProfile { max_edge: 2200, force_jpeg: false, default_quality: 92 }
    } else {
        UploadProfile { max_edge: 1700, force_jpeg: false, default_quality: 78 }
    }
}

/// Whether the image is sent as JPEG: forced by the profile, or the format setting is
/// `jpeg` or `jpg` in any ASCII case.
pub fn wants_jpeg(force_jpeg: bool, image_format: &str) -> (r: bool)
    ensures
        r == (force_jpeg || ascii_lower(image_format@) == "jpeg"@ || ascii_lower(image_format@)
            == "jpg"@),
{
    let lower = to_ascii_lower(image_format);
    force_jpeg || str_eq(lower.as_str(), "jpeg") || str_eq(lower.as_str(), "jpg")
}

/// The JPEG quality: the profile's default when the setting is 0, else the setting
/// capped at 100.
pub fn jpeg_quality(setting: u8, default_quality: u8) -> (r: u8)
    ensures
        setting == 0 ==> r == default_quality,
        setting != 0 ==> r == (if setting > 100 {
            100
        } else {
            setting
        }),
{
    if setting == 0 {
        default_quality
    } else if setting > 100 {
        100
    } else {
        setting
    }
}

/// Whether an image of `width` x `height` must be scaled down to `max_edge`.
pub fn needs_downscale(width: u32, height: u32, max_edge: u32) -> (r: bool)
    ensures
        r == (width > max_edge || height > max_edge),
{
    let long = if width >= height {
        width
    } else {
        height
    };
    long > max_edge
}

/// How the OCR settings ask an image to be encoded for upload.
#[derive(Clone, Copy, Debug)]
pub struct UploadPlan {
    pub max_edge: u32,
    /// `Some(quality)` for JPEG, `None` for PNG.
    pub jpeg_quality: Option<u8>,
}

/// The upload plan of the settings: the profile's longest edge, and JPEG with its
/// quality when JPEG is wanted.
pub fn upload_plan(settings: &OcrSettings) -> (r: UploadPlan)
    ensures
        r.max_edge == upload_profile_of(settings.speed_mode@).max_edge,
        ({
            let p = upload_profile_of(settings.speed_mode@);
            let jpeg = p.force_jpeg || ascii_lower(settings.image_format@) == "jpeg"@
                || ascii_lower(settings.image_format@) == "jpg"@;
            &&& jpeg ==> r.jpeg_quality == Some(
                if settings.jpeg_quality == 0 {
                    p.default_quality
                } else if settings.jpeg_quality > 100 {
                    100u8
                } else {
                    settings.jpeg_quality
                },
            )
            &&& !jpeg ==> r.jpeg_quality is None
        }),
{
    let profile = upload_profile(settings.speed_mode.as_str());
    let jpeg = wants_jpeg(profile.force_jpeg, settings.image_format.as_str());
    UploadPlan {
        max_edge: profile.max_edge,
        jpeg_quality: if jpeg {
            Some(jpeg_quality(settings.jpeg_quality, profile.default_quality))
        } else {
            None
        },
    }
}

/// The MIME type of an upload under a plan.
pub fn upload_mime(plan: &UploadPlan) -> (r: &'static str)
    ensures
        plan.jpeg_quality is Some ==> r@ == "image/jpeg"@,
        plan.jpeg_quality is None ==> r@ == "image/png"@,
{
    if plan.jpeg_quality.is_some() {
        "image/jpeg"
    } else {
        "image/png"
    }
}

/// The language tag handed to the Windows OCR script: empty for `auto`, quoted for a
/// PowerShell single-quoted literal otherwise.
pub fn local_ocr_language(lang: &str) -> (r: String)
    ensures
        r@ == ps_quoted(if lang@ == "auto"@ {
            Seq::<char>::empty()
        } else {
            lang@
        }),
{
    let tag = if str_eq(lang, "auto") {
        ""
    } else {
        lang
    };
    proof {
        reveal_strlit("");
    }
    ps_quote(tag)
}

/// The Windows OCR script's output as recognized text: trimmed, an error when empty.
pub fn local_ocr_output(stdout: &str) -> (r: Result<String, String>)
    ensures
        trim(stdout@).len() == 0 ==> (r matches Err(e) && e@
            == "Local OCR returned empty text"@),
        trim(stdout@).len() != 0 ==> (r matches Ok(t) && t@ == trim(stdout@)),
{
    let t = trim_str(stdout);
    if t.is_empty() {
        Err(String::from_str("Local OCR returned empty text"))
    } else {
        Ok(String::from_str(t))
    }
}

/// BGRA pixels as RGBA: blue and red swapped in every whole 4-byte pixel; a trailing
/// partial pixel is dropped.
pub open spec fn bgra_as_rgba(bgra: Seq<u8>) -> Seq<u8> {
    Seq::new(
        (bgra.len() / 4 * 4) as nat,
        |i: int|
            if i % 4 == 0 {
                bgra[i + 2]
            } else if i % 4 == 2 {
                bgra[i - 2]
            } else {
                bgra[i]
            },
    )
}

/// Converts BGRA pixels to RGBA (see `bgra_as_rgba`).
pub fn bgra_to_rgba(bgra: &[u8]) -> (r: Vec<u8>)
    ensures
        r@ == bgra_as_rgba(bgra@),
{
    let n = bgra.len();
    let mut r: Vec<u8> = Vec::new();
    let mut i: usize = 0;
    while n - i >= 4
        invariant
            n == bgra.len(),
            i <= n,
            i % 4 == 0,
            r@ =~= bgra_as_rgba(bgra@).subrange(0, i as int),
            i <= bgra_as_rgba(bgra@).len(),
        decreases n - i,
    {
        r.push(bgra[i + 2]);
        r.push(bgra[i + 1]);
        r.push(bgra[i]);
        r.push(bgra[i + 3]);
        i = i + 4;
    }
    assert(i == n / 4 * 4);
    r
}

/// The PNG that the `image` crate writes for an RGBA image of `width` x `height` whose
/// pixel buffer is `pixels`; `None` when it reports an error.
pub uninterp spec fn rgba8_png(width: u32, height: u32, pixels: Seq<u8>) -> Option<Seq<u8>>;

/// Builds an `image::ImageBuffer` of RGBA pixels from `pixels` and encodes it with
/// `DynamicImage::write_to` as PNG. The `requires` is what both need: `from_raw` refuses a
/// buffer that is too short, and the PNG encoder panics on one that is longer than the
/// image. The bytes, or the failure, are `rgba8_png` of the arguments; the error's text is
/// not stated.
#[verifier::external_body]
fn encode_rgba8_png(width: u32, height: u32, pixels: Vec<u8>) -> (r: Result<Vec<u8>, String>)
    requires
        4 * (width as int) * (height as int) == pixels@.len(),
    ensures
        r is Ok <==> rgba8_png(width, height, pixels@) is Some,
        r matches Ok(b) ==> rgba8_png(width, height, pixels@) == Some(b@),
{
    if let Some(buffer) = image::ImageBuffer::<image::Rgba<u8>, Vec<u8>>::from_raw(
        width,
        height,
        pixels,
    ) {
        let mut out = std::io::Cursor::new(Vec::<u8>::new());
        match image::DynamicImage::ImageRgba8(buffer).write_to(&mut out, image::ImageFormat::Png) {
            Ok(()) => Ok(out.into_inner()),
            Err(e) => Err(e.to_string()),
        }
    } else {
        Err(String::new())
    }
}

/// Whether an RGBA buffer of `len` bytes holds a `width` x `height` image.
pub open spec fn rgba_fits(width: u32, height: u32, len: nat) -> bool {
    4 * (width as int) * (height as int) <= len
}

/// A clipboard image (BGRA pixels, as the clipboard gives them) as PNG bytes. Its
/// dimensions are taken as `u32`; the pixels must not be more than they describe.
pub fn clipboard_image_png(width: usize, height: usize, bgra: &[u8]) -> (r: Result<
    Vec<u8>,
    String,
>)
    requires
        bgra_as_rgba(bgra@).len() <= 4 * (width as u32 as int) * (height as u32 as int),
    ensures
        !rgba_fits(width as u32, height as u32, bgra_as_rgba(bgra@).len()) ==> (r matches Err(e)
            && e@ == "Failed to parse screenshot image bytes"@),
        rgba_fits(width as u32, height as u32, bgra_as_rgba(bgra@).len()) ==> (match rgba8_png(
            width as u32,
            height as u32,
            bgra_as_rgba(bgra@),
        ) {
            Some(png) => r matches Ok(b) && b@ == png,
            None => r matches Err(e) && "Failed to encode screenshot: "@.is_prefix_of(e@),
        }),
{
    let rgba = bgra_to_rgba(bgra);
    let w = width as u32;
    let h = height as u32;
    let w128 = w as u128;
    let h128 = h as u128;
    proof {
        assert(4 * w128 * h128 <= 4 * 0xffff_ffffu128 * 0xffff_ffffu128) by (nonlinear_arith)
            requires
                w128 <= 0xffff_ffff,
                h128 <= 0xffff_ffff,
        ;
    }
    let need: u128 = 4 * w128 * h128;
    let fits = need <= rgba.len() as u128;
    if !fits {
        return Err(String::from_str("Failed to parse screenshot image bytes"));
    }
    match encode_rgba8_png(w, h, rgba) {
        Ok(png) => Ok(png),
        Err(e) => {
            let msg = join2("Failed to encode screenshot: ", e.as_str());
            proof {
                assert("Failed to encode screenshot: "@.is_prefix_of(msg@)) by {
                    assert(msg@.subrange(0, "Failed to encode screenshot: "@.len() as int)
                        =~= "Failed to encode screenshot: "@);
                }
            }
            Err(msg)
        },
    }
}

/// The path that produced the OCR text.
#[derive(Clone, Copy, Debug, PartialEq, Eq, Structural)]
pub enum OcrPath {
    Local,
    Cloud,
    CloudFallback,
}

pub open spec fn ocr_path_text(p: OcrPath) -> Seq<char> {
    match p {
        OcrPath::Local => "local"@,
        OcrPath::Cloud => "cloud"@,
        OcrPath::CloudFallback => "cloud_fallback"@,
    }
}

/// The path's name in status events: `local`, `cloud` or `cloud_fallback`.
pub fn ocr_path_name(p: OcrPath) -> (r: &'static str)
    ensures
        r@ == ocr_path_text(p),
{
    match p {
        OcrPath::Local => "local",
        OcrPath::Cloud => "cloud",
        OcrPath::CloudFallback => "cloud_fallback",
    }
}

/// Which image a step works on: the one encoded for upload, or the one enhanced for a
/// retry (always PNG).
#[derive(Clone, Copy, Debug, PartialEq, Eq, Structural)]
pub enum OcrImage {
    Encoded,
    Retry,
}

/// Where an OCR run stands.
#[derive(Clone, Copy, Debug, PartialEq, Eq, Structural)]
pub enum OcrStage {
    Converting,
    Local,
    Enhancing,
    Retry,
    Cloud,
    Translating,
    Copying,
    Done,
}

/// What the caller does next.
#[derive(Debug)]
pub enum OcrAction {
    /// Encode the screenshot for upload (see `upload_plan`).
    Convert,
    /// Run the Windows OCR on an image.
    RunLocal(OcrImage),
    /// Enhance the encoded image for a second local attempt.
    Enhance,
    /// Send an image to the cloud vision model.
    CallCloud(OcrImage),
    /// Translate the recognized text to the target language.
    Translate,
    /// Write this text to the clipboard.
    Copy(String),
    /// Done: the text was copied; report it with the path that produced it.
    Finish { text: String, path: OcrPath },
    /// Done with this error.
    Fail(String),
}

/// Progress messages for the user and the log.
#[derive(Debug)]
pub enum OcrNotice {
    /// A key was saved but its provider has no cloud OCR.
    UnsupportedKeyIgnored,
    /// Local OCR text was weak; retrying with an enhanced image.
    LocalWeak,
    /// The retry was weak or failed; falling back to the cloud.
    RetryWeak,
    /// Enhancing failed, with this error; falling back to the cloud.
    RetryPrepFailed(String),
    /// Local OCR failed, with this error; falling back to the cloud.
    LocalFailed(String),
    /// The local OCR task itself failed, with this error; falling back to the cloud.
    LocalTaskFailed(String),
    /// Translating to the target language.
    Translating,
}

/// An action with the notice that goes with it.
#[derive(Debug)]
pub struct OcrStep {
    pub action: OcrAction,
    pub notice: Option<OcrNotice>,
}

/// What a local OCR attempt reported.
#[derive(Debug)]
pub enum LocalOutcome {
    Text(String),
    Failed(String),
    /// The task running the OCR did not complete.
    TaskFailed(String),
}

/// The outcome of the action the caller performed.
#[derive(Debug)]
pub enum OcrEvent {
    Converted(Result<(), String>),
    LocalDone(LocalOutcome),
    Enhanced(Result<(), String>),
    RetryDone(LocalOutcome),
    CloudDone(Result<String, String>),
    Translated(Result<String, String>),
    Copied(Result<(), String>),
}

/// One OCR run, from a screenshot to the copied text.
#[derive(Debug)]
pub struct OcrRun {
    /// The trimmed API key.
    pub api_key: String,
    /// Whether the key allows cloud OCR.
    pub has_cloud_key: bool,
    /// Whether the local OCR is tried first (speed `local` on a platform that has it).
    pub local_first: bool,
    pub translate: bool,
    pub copy_mode: String,
    pub stage: OcrStage,
    pub path: OcrPath,
    /// The recognized text, once there is one.
    pub original: String,
    /// The text to copy, once it is composed.
    pub output: String,
}

pub open spec fn msg_cloud_key_required() -> Seq<char> {
    "Cloud API key is missing or invalid. Add a Groq key starting with gsk_, add an xAI key starting with xai-, or switch OCR Speed to Local."@
}

pub open spec fn msg_cloud_key_missing() -> Seq<char> {
    "Cloud API key is missing or invalid. Add a Groq gsk_ key or an xAI xai- key."@
}

pub open spec fn msg_retry_no_key() -> Seq<char> {
    "Local OCR returned no text, and no supported cloud fallback key is saved. Add a Groq gsk_ key, an xAI xai- key, or try a clearer/larger text region."@
}

pub open spec fn msg_prep_no_key() -> Seq<char> {
    "Local OCR preprocessing failed, and no supported cloud fallback key is saved. Add a Groq gsk_ key, an xAI xai- key, or try a clearer/larger text region."@
}

pub open spec fn msg_local_no_key() -> Seq<char> {
    "Local OCR failed, and no supported cloud fallback key is saved. Add a Groq gsk_ key, an xAI xai- key, or try a clearer/larger text region."@
}

pub open spec fn msg_clipboard_prefix() -> Seq<char> {
    "Failed to write clipboard: "@
}

impl OcrStage {
    /// Whether the stage waits for this kind of event.
    pub open spec fn accepts(self, ev: OcrEvent) -> bool {
        match ev {
            OcrEvent::Converted(_) => self == OcrStage::Converting,
            OcrEvent::LocalDone(_) => self == OcrStage::Local,
            OcrEvent::Enhanced(_) => self == OcrStage::Enhancing,
            OcrEvent::RetryDone(_) => self == OcrStage::Retry,
            OcrEvent::CloudDone(_) => self == OcrStage::Cloud,
            OcrEvent::Translated(_) => self == OcrStage::Translating,
            OcrEvent::Copied(_) => self == OcrStage::Copying,
        }
    }
}

/// The fields a step never changes.
pub open spec fn ocr_frame(a: OcrRun, b: OcrRun) -> bool {
    &&& b.api_key@ == a.api_key@
    &&& b.has_cloud_key == a.has_cloud_key
    &&& b.local_first == a.local_first
    &&& b.translate == a.translate
    &&& b.copy_mode@ == a.copy_mode@
}

/// Falling back to the cloud on `image`, or failing with `msg` without a cloud key.
pub open spec fn ocr_fallback(
    a: OcrRun,
    b: OcrRun,
    step: OcrStep,
    image: OcrImage,
    msg: Seq<char>,
) -> bool {
    &&& b.path == OcrPath::CloudFallback
    &&& b.original@ == a.original@
    &&& if a.has_cloud_key {
        b.stage == OcrStage::Cloud && step.action == OcrAction::CallCloud(image)
    } else {
        b.stage == OcrStage::Done && (step.action matches OcrAction::Fail(m) && m@ == msg)
    }
}

/// Having the recognized `text` from `path`: translate it, or copy it.
pub open spec fn ocr_have_text(a: OcrRun, b: OcrRun, step: OcrStep, text: Seq<char>, path: OcrPath) -> bool {
    &&& b.original@ == text
    &&& b.path == path
    &&& if a.translate {
        &&& b.stage == OcrStage::Translating
        &&& step.action == OcrAction::Translate
        &&& step.notice == Some(OcrNotice::Translating)
    } else {
        &&& b.stage == OcrStage::Copying
        &&& b.output@ == ocr_output_text(a.copy_mode@, text, None)
        &&& step.action matches OcrAction::Copy(out) && out@ == b.output@
        &&& step.notice is None
    }
}

/// Failing with `msg`.
pub open spec fn ocr_fail(b: OcrRun, step: OcrStep, msg: Seq<char>) -> bool {
    &&& b.stage == OcrStage::Done
    &&& step.action matches OcrAction::Fail(m) && m@ == msg
    &&& step.notice is None
}

/// One transition of an OCR run.
pub open spec fn ocr_transition(a: OcrRun, ev: OcrEvent, b: OcrRun, step: OcrStep) -> bool {
    &&& ocr_frame(a, b)
    &&& match ev {
        OcrEvent::Converted(Err(e)) => ocr_fail(b, step, e@),
        OcrEvent::Converted(Ok(())) => if a.local_first {
            &&& b.stage == OcrStage::Local
            &&& step.action == OcrAction::RunLocal(OcrImage::Encoded)
            &&& step.notice is None
            &&& b.path == a.path
        } else if a.has_cloud_key {
            &&& b.stage == OcrStage::Cloud
            &&& step.action == OcrAction::CallCloud(OcrImage::Encoded)
            &&& step.notice is None
            &&& b.path == OcrPath::Cloud
        } else {
            ocr_fail(b, step, msg_cloud_key_missing())
        },
        OcrEvent::LocalDone(LocalOutcome::Text(t)) => if !weak_ocr_text(t@) {
            ocr_have_text(a, b, step, t@, OcrPath::Local)
        } else {
            &&& b.stage == OcrStage::Enhancing
            &&& step.action == OcrAction::Enhance
            &&& step.notice == Some(OcrNotice::LocalWeak)
            &&& b.path == a.path
        },
        OcrEvent::LocalDone(LocalOutcome::Failed(e)) => {
            &&& ocr_fallback(a, b, step, OcrImage::Encoded, msg_local_no_key())
            &&& step.notice matches Some(OcrNotice::LocalFailed(m)) && m@ == e@
        },
        OcrEvent::LocalDone(LocalOutcome::TaskFailed(e)) => {
            &&& ocr_fallback(a, b, step, OcrImage::Encoded, msg_local_no_key())
            &&& step.notice matches Some(OcrNotice::LocalTaskFailed(m)) && m@ == e@
        },
        OcrEvent::Enhanced(Ok(())) => {
            &&& b.stage == OcrStage::Retry
            &&& step.action == OcrAction::RunLocal(OcrImage::Retry)
            &&& step.notice is None
            &&& b.path == a.path
        },
        OcrEvent::Enhanced(Err(e)) => {
            &&& ocr_fallback(a, b, step, OcrImage::Encoded, msg_prep_no_key())
            &&& step.notice matches Some(OcrNotice::RetryPrepFailed(m)) && m@ == e@
        },
        OcrEvent::RetryDone(LocalOutcome::Text(t)) => if !weak_ocr_text(t@) {
            ocr_have_text(a, b, step, t@, OcrPath::Local)
        } else {
            &&& ocr_fallback(a, b, step, OcrImage::Retry, msg_retry_no_key())
            &&& step.notice == Some(OcrNotice::RetryWeak)
        },
        OcrEvent::RetryDone(_) => {
            &&& ocr_fallback(a, b, step, OcrImage::Retry, msg_retry_no_key())
            &&& step.notice == Some(OcrNotice::RetryWeak)
        },
        OcrEvent::CloudDone(Ok(t)) => ocr_have_text(a, b, step, t@, a.path),
        OcrEvent::CloudDone(Err(e)) => ocr_fail(b, step, e@),
        OcrEvent::Translated(Ok(t)) => {
            &&& b.stage == OcrStage::Copying
            &&& b.original@ == a.original@
            &&& b.path == a.path
            &&& b.output@ == ocr_output_text(a.copy_mode@, a.original@, Some(t@))
            &&& step.action matches OcrAction::Copy(out) && out@ == b.output@
            &&& step.notice is None
        },
        OcrEvent::Translated(Err(e)) => ocr_fail(b, step, e@),
        OcrEvent::Copied(Ok(())) => {
            &&& b.stage == OcrStage::Done
            &&& step.action matches OcrAction::Finish { text, path } && text@ == a.output@ && path
                == a.path
            &&& step.notice is None
        },
        OcrEvent::Copied(Err(e)) => ocr_fail(b, step, msg_clipboard_prefix() + e@),
    }
}

fn fail_step(msg: String) -> (r: OcrStep)
    ensures
        r.action matches OcrAction::Fail(m) && m@ == msg@,
        r.notice is None,
{
    OcrStep { action: OcrAction::Fail(msg), notice: None }
}

impl OcrRun {
    /// Starts an OCR run of a screenshot with these settings and API key. Without a
    /// supported cloud key only the local speed mode may go on; otherwise the first action
    /// is to encode the screenshot.
    pub fn start(settings: &OcrSettings, api_key: &str, local_ocr_available: bool) -> (r: (
        OcrRun,
        OcrStep,
    ))
        ensures
            r.0.api_key@ == trim(api_key@),
            r.0.has_cloud_key == supported_cloud_key(trim(api_key@)),
            r.0.local_first == (settings.speed_mode@ == "local"@ && local_ocr_available),
            r.0.translate == settings.translate_enabled,
            r.0.copy_mode@ == settings.copy_mode@,
            r.0.path == OcrPath::Cloud,
            r.0.original@.len() == 0,
            r.0.output@.len() == 0,
            (trim(api_key@).len() != 0 && !supported_cloud_key(trim(api_key@))) <==> r.1.notice
                == Some(OcrNotice::UnsupportedKeyIgnored),
            r.1.notice is None || r.1.notice == Some(OcrNotice::UnsupportedKeyIgnored),
            !supported_cloud_key(trim(api_key@)) && settings.speed_mode@ != "local"@ ==> (
            r.0.stage == OcrStage::Done && (r.1.action matches OcrAction::Fail(m) && m@
                == msg_cloud_key_required())),
            supported_cloud_key(trim(api_key@)) || settings.speed_mode@ == "local"@ ==> (
            r.0.stage == OcrStage::Converting && r.1.action == OcrAction::Convert),
            r.0.stage == awaited_stage(r.1.action),
    {
        let key = trim_str(api_key);
        let has_cloud_key = has_supported_cloud_key(key);
        let notice = if !key.is_empty() && !has_cloud_key {
            Some(OcrNotice::UnsupportedKeyIgnored)
        } else {
            None
        };
        let is_local = str_eq(settings.speed_mode.as_str(), "local");
        let blocked = !has_cloud_key && !is_local;
        let run = OcrRun {
            api_key: String::from_str(key),
            has_cloud_key,
            local_first: is_local && local_ocr_available,
            translate: settings.translate_enabled,
            copy_mode: settings.copy_mode.clone(),
            stage: if blocked {
                OcrStage::Done
            } else {
                OcrStage::Converting
            },
            path: OcrPath::Cloud,
            original: String::new(),
            output: String::new(),
        };
        let action = if blocked {
            OcrAction::Fail(
                String::from_str(
                    "Cloud API key is missing or invalid. Add a Groq key starting with gsk_, add an xAI key starting with xai-, or switch OCR Speed to Local.",
                ),
            )
        } else {
            OcrAction::Convert
        };
        (run, OcrStep { action, notice })
    }

    fn fallback(&mut self, image: OcrImage, msg: &str) -> (r: OcrAction)
        ensures
            final(self).path == OcrPath::CloudFallback,
            final(self).original@ == old(self).original@,
            ocr_frame(*old(self), *final(self)),
            old(self).has_cloud_key ==> final(self).stage == OcrStage::Cloud && r
                == OcrAction::CallCloud(image),
            !old(self).has_cloud_key ==> final(self).stage == OcrStage::Done && (r matches OcrAction::Fail(m) && m@ == msg@),
    {
        self.path = OcrPath::CloudFallback;
        if self.has_cloud_key {
            self.stage = OcrStage::Cloud;
            OcrAction::CallCloud(image)
        } else {
            self.stage = OcrStage::Done;
            OcrAction::Fail(String::from_str(msg))
        }
    }

    fn have_text(&mut self, text: String, path: OcrPath) -> (r: OcrStep)
        ensures
            ocr_frame(*old(self), *final(self)),
            ocr_have_text(*old(self), *final(self), r, text@, path),
    {
        self.path = path;
        if self.translate {
            self.original = text;
            self.stage = OcrStage::Translating;
            OcrStep { action: OcrAction::Translate, notice: Some(OcrNotice::Translating) }
        } else {
            let out = compose_ocr_output(self.copy_mode.as_str(), text.as_str(), &None);
            self.original = text;
            self.output = out.clone();
            self.stage = OcrStage::Copying;
            OcrStep { action: OcrAction::Copy(out), notice: None }
        }
    }

    fn retry_fallback(&mut self) -> (r: OcrStep)
        ensures
            ocr_frame(*old(self), *final(self)),
            ocr_fallback(*old(self), *final(self), r, OcrImage::Retry, msg_retry_no_key()),
            r.notice == Some(OcrNotice::RetryWeak),
    {
        let action = self.fallback(
            OcrImage::Retry,
            "Local OCR returned no text, and no supported cloud fallback key is saved. Add a Groq gsk_ key, an xAI xai- key, or try a clearer/larger text region.",
        );
        OcrStep { action, notice: Some(OcrNotice::RetryWeak) }
    }

    /// Advances the run by the outcome of its last action.
    pub fn step(&mut self, event: OcrEvent) -> (r: OcrStep)
        requires
            old(self).stage.accepts(event),
        ensures
            ocr_transition(*old(self), event, *final(self), r),
    {
        match event {
            OcrEvent::Converted(Err(e)) => {
                self.stage = OcrStage::Done;
                fail_step(e)
            },
            OcrEvent::Converted(Ok(())) => {
                if self.local_first {
                    self.stage = OcrStage::Local;
                    OcrStep { action: OcrAction::RunLocal(OcrImage::Encoded), notice: None }
                } else if self.has_cloud_key {
                    self.stage = OcrStage::Cloud;
                    self.path = OcrPath::Cloud;
                    OcrStep { action: OcrAction::CallCloud(OcrImage::Encoded), notice: None }
                } else {
                    self.stage = OcrStage::Done;
                    fail_step(
                        String::from_str(
                            "Cloud API key is missing or invalid. Add a Groq gsk_ key or an xAI xai- key.",
                        ),
                    )
                }
            },
            OcrEvent::LocalDone(LocalOutcome::Text(t)) => {
                if !is_weak_ocr_text(t.as_str()) {
                    self.have_text(t, OcrPath::Local)
                } else {
                    self.stage = OcrStage::Enhancing;
                    OcrStep { action: OcrAction::Enhance, notice: Some(OcrNotice::LocalWeak) }
                }
            },
            OcrEvent::LocalDone(LocalOutcome::Failed(e)) => {
                let action = self.fallback(
                    OcrImage::Encoded,
                    "Local OCR failed, and no supported cloud fallback key is saved. Add a Groq gsk_ key, an xAI xai- key, or try a clearer/larger text region.",
                );
                OcrStep { action, notice: Some(OcrNotice::LocalFailed(e)) }
            },
            OcrEvent::LocalDone(LocalOutcome::TaskFailed(e)) => {
                let action = self.fallback(
                    OcrImage::Encoded,
                    "Local OCR failed, and no supported cloud fallback key is saved. Add a Groq gsk_ key, an xAI xai- key, or try a clearer/larger text region.",
                );
                OcrStep { action, notice: Some(OcrNotice::LocalTaskFailed(e)) }
            },
            OcrEvent::Enhanced(Ok(())) => {
                self.stage = OcrStage::Retry;
                OcrStep { action: OcrAction::RunLocal(OcrImage::Retry), notice: None }
            },
            OcrEvent::Enhanced(Err(e)) => {
                let action = self.fallback(
                    OcrImage::Encoded,
                    "Local OCR preprocessing failed, and no supported cloud fallback key is saved. Add a Groq gsk_ key, an xAI xai- key, or try a clearer/larger text region.",
                );
                OcrStep { action, notice: Some(OcrNotice::RetryPrepFailed(e)) }
            },
            OcrEvent::RetryDone(LocalOutcome::Text(t)) => {
                if !is_weak_ocr_text(t.as_str()) {
                    self.have_text(t, OcrPath::Local)
                } else {
                    self.retry_fallback()
                }
            },
            OcrEvent::RetryDone(_) => self.retry_fallback(),
            OcrEvent::CloudDone(Ok(t)) => {
                let path = self.path;
                self.have_text(t, path)
            },
            OcrEvent::CloudDone(Err(e)) => {
                self.stage = OcrStage::Done;
                fail_step(e)
            },
            OcrEvent::Translated(Ok(t)) => {
                let translated = Some(t);
                let out = compose_ocr_output(
                    self.copy_mode.as_str(),
                    self.original.as_str(),
                    &translated,
                );
                self.output = out.clone();
                self.stage = OcrStage::Copying;
                OcrStep { action: OcrAction::Copy(out), notice: None }
            },
            OcrEvent::Translated(Err(e)) => {
                self.stage = OcrStage::Done;
                fail_step(e)
            },
            OcrEvent::Copied(Ok(())) => {
                self.stage = OcrStage::Done;
                OcrStep {
                    action: OcrAction::Finish { text: self.output.clone(), path: self.path },
                    notice: None,
                }
            },
            OcrEvent::Copied(Err(e)) => {
                self.stage = OcrStage::Done;
                fail_step(join2("Failed to write clipboard: ", e.as_str()))
            },
        }
    }
}

/// The order in which a run passes through its stages.
pub open spec fn stage_rank(s: OcrStage) -> int {
    match s {
        OcrStage::Converting => 0,
        OcrStage::Local => 1,
        OcrStage::Enhancing => 2,
        OcrStage::Retry => 3,
        OcrStage::Cloud => 4,
        OcrStage::Translating => 5,
        OcrStage::Copying => 6,
        OcrStage::Done => 7,
    }
}

/// Every step moves a run to a later stage, and a finished run waits for nothing, so a run
/// ends after at most seven steps.
pub proof fn lemma_run_moves_forward(a: OcrRun, ev: OcrEvent, b: OcrRun, step: OcrStep)
    requires
        a.stage.accepts(ev),
        ocr_transition(a, ev, b, step),
    ensures
        stage_rank(b.stage) > stage_rank(a.stage),
        a.stage != OcrStage::Done,
{
}

/// Without a supported cloud key no step of a run calls the cloud; the run fails where it
/// would have.
pub proof fn lemma_no_cloud_without_key(a: OcrRun, ev: OcrEvent, b: OcrRun, step: OcrStep)
    requires
        !a.has_cloud_key,
        ocr_transition(a, ev, b, step),
    ensures
        !(step.action is CallCloud),
{
}

/// Weak text from a local attempt is never copied or translated: weak text from the first
/// attempt leads to an enhanced retry, weak text from the retry to the cloud or to an error.
pub proof fn lemma_weak_text_not_delivered(a: OcrRun, ev: OcrEvent, b: OcrRun, step: OcrStep)
    requires
        ocr_transition(a, ev, b, step),
        (ev matches OcrEvent::LocalDone(LocalOutcome::Text(t)) && weak_ocr_text(t@)) || (
        ev matches OcrEvent::RetryDone(LocalOutcome::Text(t)) && weak_ocr_text(t@)),
    ensures
        !(step.action is Copy) && !(step.action is Translate) && !(step.action is Finish),
        ev is LocalDone ==> step.action == OcrAction::Enhance,
        ev is RetryDone ==> (step.action is CallCloud || step.action is Fail),
{
}

/// The enhanced retry runs at most once: only a successful enhancement leads to it, only
/// weak text from the first attempt leads to an enhancement, and the retry's outcome never
/// leads to another local attempt.
pub proof fn lemma_single_retry(a: OcrRun, ev: OcrEvent, b: OcrRun, step: OcrStep)
    requires
        a.stage.accepts(ev),
        ocr_transition(a, ev, b, step),
    ensures
        step.action == OcrAction::RunLocal(OcrImage::Retry) ==> ev is Enhanced && a.stage
            == OcrStage::Enhancing,
        step.action == OcrAction::Enhance ==> ev is LocalDone,
        ev is RetryDone ==> !(step.action is RunLocal) && !(step.action is Enhance),
{
}

proof fn lemma_b64_blocks_len(s: Seq<u8>)
    requires
        s.len() % 3 == 0,
    ensures
        b64_blocks(s).len() == s.len() / 3 * 4,
    decreases s.len(),
{
    if s.len() >= 3 {
        lemma_b64_blocks_len(s.subrange(0, s.len() - 3));
    }
}

/// Base64 turns every started group of three bytes into four symbols: `n` bytes give
/// `4 * ceil(n / 3)` characters.
pub proof fn lemma_b64_length(s: Seq<u8>)
    ensures
        b64_encoding(s).len() == (s.len() + 2) / 3 * 4,
{
    let k = s.len() / 3 * 3;
    lemma_b64_blocks_len(s.subrange(0, k as int));
}

/// The stage that waits for the outcome of an action; after `Finish` or `Fail` the run
/// is done.
pub open spec fn awaited_stage(action: OcrAction) -> OcrStage {
    match action {
        OcrAction::Convert => OcrStage::Converting,
        OcrAction::RunLocal(OcrImage::Encoded) => OcrStage::Local,
        OcrAction::RunLocal(OcrImage::Retry) => OcrStage::Retry,
        OcrAction::Enhance => OcrStage::Enhancing,
        OcrAction::CallCloud(_) => OcrStage::Cloud,
        OcrAction::Translate => OcrStage::Translating,
        OcrAction::Copy(_) => OcrStage::Copying,
        OcrAction::Finish { .. } => OcrStage::Done,
        OcrAction::Fail(_) => OcrStage::Done,
    }
}

/// After every step the run waits for the outcome of the action that step asked for, so
/// the caller always knows which event to hand back.
pub proof fn lemma_step_awaits_its_action(a: OcrRun, ev: OcrEvent, b: OcrRun, step: OcrStep)
    requires
        ocr_transition(a, ev, b, step),
    ensures
        b.stage == awaited_stage(step.action),
{
}

proof fn lemma_b64_blocks_concat(a: Seq<u8>, b: Seq<u8>)
    requires
        a.len() % 3 == 0,
        b.len() % 3 == 0,
    ensures
        b64_blocks(a + b) == b64_blocks(a) + b64_blocks(b),
    decreases b.len(),
{
    if b.len() < 3 {
        assert(b.len() == 0);
        assert(a + b =~= a);
        assert(b64_blocks(b) =~= Seq::<char>::empty());
        assert(b64_blocks(a) + b64_blocks(b) =~= b64_blocks(a));
    } else {
        let kb = b.len() - 3;
        let ab = a + b;
        let k = ab.len() - 3;
        let b0 = b.subrange(0, kb);
        lemma_b64_blocks_concat(a, b0);
        assert(ab.subrange(0, k) =~= a + b0);
        assert(ab[k] == b[kb] && ab[k + 1] == b[kb + 1] && ab[k + 2] == b[kb + 2]);
        assert(b64_blocks(ab) =~= b64_blocks(a) + b64_blocks(b0) + b64_group3(b[kb], b[kb + 1], b[kb + 2]));
    }
}

/// Base64 encodes three-byte groups independently: when the first part's length is a
/// multiple of three, the encoding of the whole is the encoding of the first part
/// followed by that of the rest.
pub proof fn lemma_b64_concat(a: Seq<u8>, b: Seq<u8>)
    requires
        a.len() % 3 == 0,
    ensures
        b64_encoding(a + b) == b64_encoding(a) + b64_encoding(b),
{
    let ab = a + b;
    let kb = b.len() / 3 * 3;
    let k = ab.len() / 3 * 3;
    assert(k == a.len() + kb) by (nonlinear_arith)
        requires
            a.len() % 3 == 0,
            ab.len() == a.len() + b.len(),
            k == ab.len() / 3 * 3,
            kb == b.len() / 3 * 3,
    ;
    assert(a.len() / 3 * 3 == a.len()) by (nonlinear_arith)
        requires
            a.len() % 3 == 0,
    ;
    assert(kb % 3 == 0) by (nonlinear_arith)
        requires
            kb == b.len() / 3 * 3,
    ;
    let b0 = b.subrange(0, kb as int);
    lemma_b64_blocks_concat(a, b0);
    assert(ab.subrange(0, k as int) =~= a + b0);
    assert(a.subrange(0, a.len() as int) =~= a);
    assert(b64_encoding(a) == b64_blocks(a));
    if b.len() - kb == 1 {
        assert(ab[k as int] == b[kb as int]);
    } else if b.len() - kb == 2 {
        assert(ab[k as int] == b[kb as int]);
        assert(ab[k + 1 as int] == b[kb + 1 as int]);
    }
    assert(ab.len() - k == b.len() - kb);
}

} // verus!
