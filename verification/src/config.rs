//! Configuration rules: model names, the automatic model router, where each
//! setting comes from, and the system prompt with workspace instructions.
use vstd::prelude::*;

use crate::input::{count_newlines, newlines};
use crate::protocol::{ChatMessage, Role, opt_view};
use crate::text::{
    contains, contains_chars, eq_str, from_chars, is_ascii_alnum, lower, lower_vec, owned,
    push_str, slice_vec, starts_with, starts_with_chars, to_chars, trim, trim_str, trim_vec,
    utf8_len, utf8_length,
};

verus! {

pub const DEFAULT_BASE_URL: &'static str = "https://api.xiaomimimo.com/v1";

pub const DEFAULT_MODEL: &'static str = "mimo-v2-flash";

pub const AUTO_MODEL: &'static str = "auto";

pub const DEFAULT_SYSTEM_PROMPT: &'static str = "You are MiMo TUI, a terminal assistant specialised for Xiaomi MiMo models.\nAnswer concisely, preserve technical accuracy, and adapt to developer workflows.\nWhen the user asks for code, prefer small, practical changes and explain tradeoffs.";

/// Workspace instructions longer than this many bytes are cut.
pub const WORKSPACE_INSTRUCTIONS_MAX_BYTES: usize = 32768;

/// Where a setting's value came from.
#[derive(Debug, Clone, Copy, PartialEq, Eq, Structural)]
pub enum ConfigValueSource {
    Cli,
    Env,
    File,
    WorkspaceInstructions,
    Default,
}

/// How tool calls are approved.
#[derive(Debug, Clone, Copy, PartialEq, Eq, Structural)]
pub enum PermissionPolicy {
    ReadOnly,
    Prompt,
    Auto,
}

impl ConfigValueSource {
    /// The label that the status screen shows.
    pub fn to_string(&self) -> (r: String)
        ensures
            r@ == match *self {
                ConfigValueSource::Cli => "cli"@,
                ConfigValueSource::Env => "env"@,
                ConfigValueSource::File => "config file"@,
                ConfigValueSource::WorkspaceInstructions => "workspace instructions"@,
                ConfigValueSource::Default => "default"@,
            },
    {
        match self {
            ConfigValueSource::Cli => owned("cli"),
            ConfigValueSource::Env => owned("env"),
            ConfigValueSource::File => owned("config file"),
            ConfigValueSource::WorkspaceInstructions => owned("workspace instructions"),
            ConfigValueSource::Default => owned("default"),
        }
    }
}

impl PermissionPolicy {
    /// The name under which the policy is written and shown.
    pub fn to_string(&self) -> (r: String)
        ensures
            r@ == match *self {
                PermissionPolicy::ReadOnly => "read_only"@,
                PermissionPolicy::Prompt => "prompt"@,
                PermissionPolicy::Auto => "auto"@,
            },
    {
        match self {
            PermissionPolicy::ReadOnly => owned("read_only"),
            PermissionPolicy::Prompt => owned("prompt"),
            PermissionPolicy::Auto => owned("auto"),
        }
    }
}

impl Default for PermissionPolicy {
    fn default() -> (r: PermissionPolicy)
        ensures
            r == PermissionPolicy::Prompt,
    {
        PermissionPolicy::Prompt
    }
}

/// The policy from the config file, or `Prompt` by default.
pub fn resolve_permissions(file_permissions: Option<PermissionPolicy>) -> (r: (
    PermissionPolicy,
    ConfigValueSource,
))
    ensures
        r == match file_permissions {
            Some(p) => (p, ConfigValueSource::File),
            None => (PermissionPolicy::Prompt, ConfigValueSource::Default),
        },
{
    match file_permissions {
        Some(permissions) => (permissions, ConfigValueSource::File),
        None => (PermissionPolicy::Prompt, ConfigValueSource::Default),
    }
}

/// The first policy given, with its source, from the most to the least
/// important source.
pub open spec fn first_permission(values: Seq<(ConfigValueSource, Option<PermissionPolicy>)>) -> (
    Option<PermissionPolicy>,
    ConfigValueSource,
)
    decreases values.len(),
{
    if values.len() == 0 {
        (None, ConfigValueSource::Default)
    } else if values[0].1 is Some {
        (values[0].1, values[0].0)
    } else {
        first_permission(values.drop_first())
    }
}

pub fn pick_permission(values: &[(ConfigValueSource, Option<PermissionPolicy>)]) -> (r: (
    Option<PermissionPolicy>,
    ConfigValueSource,
))
    ensures
        r == first_permission(values@),
{
    let mut i: usize = 0;
    assert(values@.skip(0) == values@);
    while i < values.len()
        invariant
            i <= values@.len(),
            first_permission(values@) == first_permission(values@.skip(i as int)),
        decreases values@.len() - i,
    {
        assert(values@.skip(i as int)[0] == values@[i as int]);
        let (source, value) = values[i];
        if value.is_some() {
            return (value, source);
        }
        assert(values@.skip(i as int).drop_first() == values@.skip(i + 1));
        i += 1;
    }
    (None, ConfigValueSource::Default)
}

/// The first value that is not blank, trimmed, with its source.
pub open spec fn first_string(values: Seq<(ConfigValueSource, Option<Seq<char>>)>) -> (
    Option<Seq<char>>,
    ConfigValueSource,
)
    decreases values.len(),
{
    if values.len() == 0 {
        (None, ConfigValueSource::Default)
    } else if values[0].1 matches Some(v) && trim(v).len() > 0 {
        (Some(trim(values[0].1->0)), values[0].0)
    } else {
        first_string(values.drop_first())
    }
}

pub open spec fn sourced_views(values: Seq<(ConfigValueSource, Option<String>)>) -> Seq<
    (ConfigValueSource, Option<Seq<char>>),
> {
    values.map_values(|p: (ConfigValueSource, Option<String>)| (p.0, opt_view(p.1)))
}

pub fn pick_string(values: Vec<(ConfigValueSource, Option<String>)>) -> (r: (
    Option<String>,
    ConfigValueSource,
))
    ensures
        (opt_view(r.0), r.1) == first_string(sourced_views(values@)),
{
    let ghost vs = sourced_views(values@);
    let mut i: usize = 0;
    assert(vs.skip(0) == vs);
    while i < values.len()
        invariant
            i <= values@.len(),
            vs == sourced_views(values@),
            first_string(vs) == first_string(vs.skip(i as int)),
        decreases values@.len() - i,
    {
        assert(vs.skip(i as int)[0] == vs[i as int]);
        match &values[i].1 {
            Some(value) => {
                let trimmed = trim_str(value.as_str());
                if trimmed.len() > 0 {
                    return (Some(from_chars(&trimmed)), values[i].0);
                }
            },
            None => {},
        }
        assert(vs.skip(i as int).drop_first() == vs.skip(i + 1));
        i += 1;
    }
    (None, ConfigValueSource::Default)
}

/// The model ids that the client knows.
pub open spec fn known_model_ids() -> Seq<Seq<char>> {
    seq!["auto"@, "mimo-v2-flash"@, "mimo-v2.5"@, "mimo-v2.5-pro"@]
}

/// The known models, then the current model, trimmed and lower-cased,
/// where it is neither blank nor known.
pub open spec fn model_list_spec(current: Seq<char>) -> Seq<Seq<char>> {
    let c = lower(trim(current));
    if c.len() > 0 && !known_model_ids().contains(c) {
        known_model_ids().push(c)
    } else {
        known_model_ids()
    }
}

pub fn known_mimo_models(current_model: &str) -> (r: Vec<String>)
    ensures
        crate::text::string_views(r@) == model_list_spec(current_model@),
{
    let mut models: Vec<String> = Vec::new();
    models.push(owned("auto"));
    models.push(owned("mimo-v2-flash"));
    models.push(owned("mimo-v2.5"));
    models.push(owned("mimo-v2.5-pro"));
    assert(crate::text::string_views(models@) =~= known_model_ids());
    let current = lower_vec(&trim_str(current_model));
    let mut known = false;
    let mut i: usize = 0;
    while i < models.len()
        invariant
            i <= models@.len(),
            crate::text::string_views(models@) == known_model_ids(),
            known == exists|k: int| 0 <= k < i && known_model_ids()[k] == current@,
        decreases models@.len() - i,
    {
        assert(crate::text::string_views(models@)[i as int] == models@[i as int]@);
        if eq_str(&current, models[i].as_str()) {
            known = true;
        }
        i += 1;
    }
    proof {
        if known_model_ids().contains(current@) {
            let k = known_model_ids().index_of(current@);
            assert(known_model_ids()[k] == current@);
        }
    }
    if current.len() > 0 && !known {
        let ghost before = models@;
        models.push(from_chars(&current));
        assert(crate::text::string_views(models@) =~= crate::text::string_views(before).push(current@));
    }
    models
}

/// A character allowed in a model id.
pub open spec fn model_char(c: char) -> bool {
    is_ascii_alnum(c) || c == '-' || c == '_' || c == '.' || c == ':'
}

/// `mimo-` followed by ASCII letters, digits and `-_.:`.
pub open spec fn valid_model_name(s: Seq<char>) -> bool {
    &&& s.len() > 0
    &&& starts_with(s, "mimo-"@)
    &&& forall|i: int| 0 <= i < s.len() ==> model_char(#[trigger] s[i])
}

pub fn is_valid_model_name(model: &str) -> (r: bool)
    ensures
        r == valid_model_name(model@),
{
    let chars = to_chars(model);
    let prefix = to_chars("mimo-");
    if chars.len() == 0 || !starts_with_chars(&chars, &prefix) {
        return false;
    }
    let mut i: usize = 0;
    while i < chars.len()
        invariant
            i <= chars@.len(),
            chars@ == model@,
            forall|k: int| 0 <= k < i ==> model_char(#[trigger] chars@[k]),
        decreases chars@.len() - i,
    {
        let c = chars[i];
        if !(crate::text::is_ascii_alphanumeric(c) || c == '-' || c == '_' || c == '.' || c == ':') {
            assert(!model_char(chars@[i as int]));
            return false;
        }
        i += 1;
    }
    true
}

/// `auto`, or a valid model id, after trimming and lower-casing.
pub open spec fn normalized_model(s: Seq<char>) -> Option<Seq<char>> {
    let m = lower(trim(s));
    if m == "auto"@ || valid_model_name(m) {
        Some(m)
    } else {
        None
    }
}

pub fn normalize_model_name(model: &str) -> (r: Option<String>)
    ensures
        opt_view(r) == normalized_model(model@),
{
    let m = lower_vec(&trim_str(model));
    let s = from_chars(&m);
    if eq_str(&m, "auto") || is_valid_model_name(s.as_str()) {
        Some(s)
    } else {
        None
    }
}

/// `s` without its trailing `/` characters.
pub open spec fn strip_trailing_slashes(s: Seq<char>) -> Seq<char>
    decreases s.len(),
{
    if s.len() > 0 && s.last() == '/' {
        strip_trailing_slashes(s.drop_last())
    } else {
        s
    }
}

pub fn trim_trailing_slashes(s: &str) -> (r: String)
    ensures
        r@ == strip_trailing_slashes(s@),
{
    let chars = to_chars(s);
    let mut n = chars.len();
    assert(chars@.take(n as int) == chars@);
    while n > 0 && chars[n - 1] == '/'
        invariant
            n <= chars@.len(),
            strip_trailing_slashes(chars@) == strip_trailing_slashes(chars@.take(n as int)),
        decreases n,
    {
        assert(chars@.take(n as int).drop_last() == chars@.take(n - 1));
        n -= 1;
    }
    crate::text::from_char_range(&chars, 0, n)
}

/// The base URL in effect: the one chosen, else the default, without
/// trailing slashes.
pub fn effective_base_url(chosen: Option<String>) -> (r: String)
    ensures
        r@ == strip_trailing_slashes(match chosen {
            Some(s) => s@,
            None => DEFAULT_BASE_URL@,
        }),
{
    match chosen {
        Some(s) => trim_trailing_slashes(s.as_str()),
        None => trim_trailing_slashes(DEFAULT_BASE_URL),
    }
}

/// The model in effect: the one chosen, else the default.
pub fn effective_model(chosen: Option<String>) -> (r: String)
    ensures
        r@ == match chosen {
            Some(s) => s@,
            None => DEFAULT_MODEL@,
        },
{
    match chosen {
        Some(s) => s,
        None => owned(DEFAULT_MODEL),
    }
}

/// What `url::Url::parse` gives for a text: the scheme (`Url::scheme`)
/// and the host text (`Url::host_str`) of the parsed URL, or nothing where
/// the text is not an absolute URL.
pub uninterp spec fn url_parts_of(input: Seq<char>) -> Option<(Seq<char>, Option<Seq<char>>)>;

/// The scheme of the URL that a text parses to.
pub open spec fn url_scheme_of(input: Seq<char>) -> Option<Seq<char>> {
    match url_parts_of(input) {
        Some(parts) => Some(parts.0),
        None => None,
    }
}

/// `url::Url::parse(input)`, then the scheme and the host text of the
/// parsed URL; `None` where parsing fails. Only that the result is the one
/// named by `url_parts_of` is claimed.
#[verifier::external_body]
pub(crate) fn parse_url_parts(input: &str) -> (r: Option<(String, Option<String>)>)
    ensures
        match r {
            Some(parts) => url_parts_of(input@) == Some((parts.0@, opt_view(parts.1))),
            None => url_parts_of(input@) is None,
        },
{
    url::Url::parse(input).ok().map(|url| (url.scheme().to_string(), url.host_str().map(str::to_string)))
}

/// The trimmed base URL without trailing `/`, provided its scheme is
/// `http` or `https`.
pub open spec fn base_url_spec(trimmed: Seq<char>, scheme: Option<Seq<char>>) -> Option<Seq<char>> {
    match scheme {
        Some(s) => if s == "http"@ || s == "https"@ {
            Some(strip_trailing_slashes(trimmed))
        } else {
            None
        },
        None => None,
    }
}

/// The base URL that a parsed scheme admits.
pub fn base_url_for_scheme(trimmed: &str, scheme: Option<String>) -> (r: Option<String>)
    ensures
        opt_view(r) == base_url_spec(trimmed@, opt_view(scheme)),
{
    match scheme {
        Some(s) => {
            let chars = to_chars(s.as_str());
            if eq_str(&chars, "http") || eq_str(&chars, "https") {
                Some(trim_trailing_slashes(trimmed))
            } else {
                None
            }
        },
        None => None,
    }
}

/// An `http` or `https` base URL, trimmed and without trailing `/`.
pub fn normalize_base_url(base_url: &str) -> (r: Option<String>)
    ensures
        opt_view(r) == base_url_spec(trim(base_url@), url_scheme_of(trim(base_url@))),
{
    let trimmed = from_chars(&trim_str(base_url));
    let scheme = match parse_url_parts(trimmed.as_str()) {
        Some(parts) => Some(parts.0),
        None => None,
    };
    base_url_for_scheme(trimmed.as_str(), scheme)
}

/// Instructions found in the workspace: the file's name where it has one
/// that is valid text, its content, and whether it was cut.
#[derive(Debug, Clone)]
pub struct DiscoveredInstructions {
    pub file_name: Option<String>,
    pub content: String,
    pub truncated: bool,
}

pub open spec fn instructions_text(base: Seq<char>, i: DiscoveredInstructions) -> Seq<char> {
    let name = match i.file_name {
        Some(n) => n@,
        None => "workspace instructions"@,
    };
    base + "\n\n---\n\n# Project instructions from "@ + name + "\n\n"@ + i.content@ + if i.truncated {
        "\n\n(Note: workspace instructions truncated to 32 KiB.)"@
    } else {
        Seq::empty()
    }
}

/// The system prompt followed by the workspace instructions.
pub fn append_workspace_instructions(base_system_prompt: String, instructions: &DiscoveredInstructions) -> (r: String)
    ensures
        r@ == instructions_text(base_system_prompt@, *instructions),
{
    let mut system_prompt = base_system_prompt;
    push_str(&mut system_prompt, "\n\n---\n\n# Project instructions from ");
    match &instructions.file_name {
        Some(name) => push_str(&mut system_prompt, name.as_str()),
        None => push_str(&mut system_prompt, "workspace instructions"),
    }
    push_str(&mut system_prompt, "\n\n");
    push_str(&mut system_prompt, instructions.content.as_str());
    if instructions.truncated {
        push_str(&mut system_prompt, "\n\n(Note: workspace instructions truncated to 32 KiB.)");
    }
    system_prompt
}

/// The system prompt and its source: the configured or default prompt, with
/// the workspace instructions appended where some were found.
pub fn resolve_system_prompt(
    base_system_prompt: Option<String>,
    base_system_prompt_source: ConfigValueSource,
    discovered: Option<DiscoveredInstructions>,
) -> (r: (String, ConfigValueSource))
    ensures
        ({
            let base = match base_system_prompt {
                Some(p) => p@,
                None => DEFAULT_SYSTEM_PROMPT@,
            };
            match discovered {
                Some(i) => r.0@ == instructions_text(base, i) && r.1 == ConfigValueSource::WorkspaceInstructions,
                None => r.0@ == base && r.1 == base_system_prompt_source,
            }
        }),
{
    let base = match base_system_prompt {
        Some(p) => p,
        None => owned(DEFAULT_SYSTEM_PROMPT),
    };
    match discovered {
        Some(instructions) => (
            append_workspace_instructions(base, &instructions),
            ConfigValueSource::WorkspaceInstructions,
        ),
        None => (base, base_system_prompt_source),
    }
}

/// What `std::str::from_utf8` gives for the bytes: their text where they
/// are valid UTF-8.
pub uninterp spec fn utf8_text(bytes: Seq<u8>) -> Option<Seq<char>>;

/// `std::str::from_utf8`, with `Utf8Error::valid_up_to` on failure. Claimed:
/// the text is the one named by `utf8_text`; on failure that name gives
/// nothing for the bytes, and `valid_up_to` is the largest length whose
/// prefix decodes, as std documents it.
#[verifier::external_body]
pub(crate) fn decode_utf8(bytes: &[u8]) -> (r: Result<String, usize>)
    ensures
        match r {
            Ok(s) => utf8_text(bytes@) == Some(s@),
            Err(n) => {
                &&& utf8_text(bytes@) is None
                &&& n <= bytes@.len()
                &&& utf8_text(bytes@.take(n as int)) is Some
                &&& forall|m: int| n < m <= bytes@.len() ==> #[trigger] utf8_text(bytes@.take(m)) is None
            },
        },
{
    match std::str::from_utf8(bytes) {
        Ok(text) => Ok(text.to_owned()),
        Err(error) => Err(error.valid_up_to()),
    }
}

/// The bytes that are kept: the first 32 KiB where they were cut.
pub open spec fn kept_bytes(bytes: Seq<u8>, truncated: bool) -> Seq<u8> {
    if truncated {
        bytes.take(WORKSPACE_INSTRUCTIONS_MAX_BYTES as int)
    } else {
        bytes
    }
}

/// The text of the kept bytes, or of their longest valid UTF-8 prefix.
pub fn decode_workspace_instruction_bytes(bytes: &[u8], truncated: bool) -> (r: String)
    requires
        truncated ==> bytes@.len() >= WORKSPACE_INSTRUCTIONS_MAX_BYTES,
    ensures
        utf8_text(kept_bytes(bytes@, truncated)) matches Some(t) ==> r@ == t,
        utf8_text(kept_bytes(bytes@, truncated)) is None ==> exists|n: int|
            0 <= n <= kept_bytes(bytes@, truncated).len() && utf8_text(
                kept_bytes(bytes@, truncated).take(n),
            ) == Some(r@) && forall|m: int|
                n < m <= kept_bytes(bytes@, truncated).len() ==> #[trigger] utf8_text(
                    kept_bytes(bytes@, truncated).take(m),
                ) is None,
{
    let slice: &[u8] = if truncated {
        crate::text::byte_prefix(bytes, WORKSPACE_INSTRUCTIONS_MAX_BYTES)
    } else {
        bytes
    };
    match decode_utf8(slice) {
        Ok(text) => text,
        Err(valid) => {
            let prefix = crate::text::byte_prefix(slice, valid);
            match decode_utf8(prefix) {
                Ok(text) => text,
                Err(_) => {
                    proof {
                        assert(prefix@ == slice@.take(valid as int));
                    }
                    String::new()
                },
            }
        },
    }
}

/// Model-routing keywords that mark a request as complex.
pub open spec fn complex_keywords() -> Seq<Seq<char>> {
    seq![
        "architecture"@,
        "debug"@,
        "error"@,
        "failure"@,
        "fix"@,
        "implement"@,
        "investigate"@,
        "migrate"@,
        "plan"@,
        "refactor"@,
        "review"@,
        "security"@,
        "test"@,
        "trace"@,
    ]
}

/// The content of the latest user message, or the empty text.
pub open spec fn latest_user_content(ms: Seq<ChatMessage>) -> Seq<char>
    decreases ms.len(),
{
    if ms.len() == 0 {
        Seq::empty()
    } else if ms.last().role == Role::User {
        ms.last().content@
    } else {
        latest_user_content(ms.drop_last())
    }
}

/// Number of UTF-8 bytes of all message contents.
pub open spec fn transcript_bytes(ms: Seq<ChatMessage>) -> nat
    decreases ms.len(),
{
    if ms.len() == 0 {
        0
    } else {
        transcript_bytes(ms.drop_last()) + utf8_len(ms.last().content@)
    }
}

pub open spec fn is_complex_turn(ms: Seq<ChatMessage>) -> bool {
    let latest = latest_user_content(ms);
    ||| utf8_len(latest) > 600
    ||| transcript_bytes(ms) > 4000
    ||| newlines(latest) > 8
    ||| contains(latest, "```"@)
    ||| exists|k: int| 0 <= k < complex_keywords().len() && contains(lower(latest), #[trigger] complex_keywords()[k])
}

/// The model that the automatic router picks for a conversation.
pub open spec fn route_spec(ms: Seq<ChatMessage>) -> Seq<char> {
    if is_complex_turn(ms) {
        "mimo-v2.5-pro"@
    } else if utf8_len(latest_user_content(ms)) > 200 || transcript_bytes(ms) > 1500 {
        "mimo-v2.5"@
    } else {
        "mimo-v2-flash"@
    }
}

/// The UTF-8 length of all contents, or 4001 where it is larger.
fn capped_transcript_bytes(messages: &[ChatMessage]) -> (r: u128)
    ensures
        r == if transcript_bytes(messages@) > 4000 {
            4001
        } else {
            transcript_bytes(messages@)
        },
{
    let mut total: u128 = 0;
    let mut i: usize = 0;
    while i < messages.len()
        invariant
            i <= messages@.len(),
            total == if transcript_bytes(messages@.take(i as int)) > 4000 {
                4001
            } else {
                transcript_bytes(messages@.take(i as int))
            },
        decreases messages@.len() - i,
    {
        assert(messages@.take(i + 1).drop_last() == messages@.take(i as int));
        let n = utf8_length(&to_chars(messages[i].content.as_str()));
        if n > 4000 || total + n > 4000 {
            total = 4001;
        } else {
            total = total + n;
        }
        i += 1;
    }
    assert(messages@.take(messages@.len() as int) == messages@);
    total
}

fn latest_user(messages: &[ChatMessage]) -> (r: Vec<char>)
    ensures
        r@ == latest_user_content(messages@),
{
    let mut i = messages.len();
    assert(messages@.take(i as int) == messages@);
    while i > 0
        invariant
            i <= messages@.len(),
            latest_user_content(messages@) == latest_user_content(messages@.take(i as int)),
        decreases i,
    {
        assert(messages@.take(i as int).drop_last() == messages@.take(i - 1));
        if messages[i - 1].role == Role::User {
            return to_chars(messages[i - 1].content.as_str());
        }
        i -= 1;
    }
    Vec::new()
}

/// Picks a model for the conversation: the pro model for long, code-heavy
/// or keyword-marked requests, the mid model for medium ones, the flash
/// model otherwise.
pub fn auto_route_model(messages: &[ChatMessage]) -> (r: &'static str)
    ensures
        r@ == route_spec(messages@),
{
    let latest = latest_user(messages);
    let latest_len = utf8_length(&latest);
    let transcript = capped_transcript_bytes(messages);
    let lower_latest = lower_vec(&latest);
    let keywords = vec![
        "architecture",
        "debug",
        "error",
        "failure",
        "fix",
        "implement",
        "investigate",
        "migrate",
        "plan",
        "refactor",
        "review",
        "security",
        "test",
        "trace",
    ];
    let mut keyword = false;
    let mut k: usize = 0;
    while k < keywords.len()
        invariant
            k <= keywords@.len(),
            lower_latest@ == lower(latest@),
            keywords@.map_values(|s: &str| s@) == complex_keywords(),
            keyword == exists|j: int| 0 <= j < k && contains(lower(latest@), #[trigger] complex_keywords()[j]),
        decreases keywords@.len() - k,
    {
        assert(keywords@.map_values(|s: &str| s@)[k as int] == keywords@[k as int]@);
        if contains_chars(&lower_latest, &to_chars(keywords[k])) {
            keyword = true;
        }
        k += 1;
    }
    assert(keywords@.map_values(|s: &str| s@).len() == complex_keywords().len());
    let fence = to_chars("```");
    let complex = latest_len > 600 || transcript > 4000 || count_newlines(&latest, latest.len()) > 8
        || contains_chars(&latest, &fence) || keyword;
    assert(latest@.take(latest@.len() as int) == latest@);
    if complex {
        "mimo-v2.5-pro"
    } else if latest_len > 200 || transcript > 1500 {
        "mimo-v2.5"
    } else {
        "mimo-v2-flash"
    }
}

/// The router's three tiers: a conversation goes to the pro model exactly
/// when its turn is complex; a turn whose latest user message is over 200
/// bytes, or whose transcript is over 1500 bytes, is never sent to the flash
/// model, and either size alone sends a turn that is not complex to the mid
/// model; the flash model gets only short, simple turns.
pub proof fn law_route_tiers(ms: Seq<ChatMessage>)
    ensures
        route_spec(ms) == "mimo-v2.5-pro"@ || route_spec(ms) == "mimo-v2.5"@ || route_spec(ms)
            == "mimo-v2-flash"@,
        route_spec(ms) == "mimo-v2.5-pro"@ <==> is_complex_turn(ms),
        utf8_len(latest_user_content(ms)) > 200 ==> route_spec(ms) != "mimo-v2-flash"@,
        transcript_bytes(ms) > 1500 ==> route_spec(ms) != "mimo-v2-flash"@,
        !is_complex_turn(ms) && utf8_len(latest_user_content(ms)) > 200 ==> route_spec(ms)
            == "mimo-v2.5"@,
        !is_complex_turn(ms) && transcript_bytes(ms) > 1500 ==> route_spec(ms) == "mimo-v2.5"@,
        route_spec(ms) == "mimo-v2-flash"@ ==> !is_complex_turn(ms) && utf8_len(
            latest_user_content(ms),
        ) <= 200 && transcript_bytes(ms) <= 1500,
{
    reveal_strlit("mimo-v2.5-pro");
    reveal_strlit("mimo-v2.5");
    reveal_strlit("mimo-v2-flash");
    assert("mimo-v2.5-pro"@.len() != "mimo-v2.5"@.len());
    assert("mimo-v2.5-pro"@[7] != "mimo-v2-flash"@[7]);
    assert("mimo-v2.5"@.len() != "mimo-v2-flash"@.len());
}

/// `acc` followed by the trimmed, non-blank items of `ms` that it does not
/// hold yet, each once, in order.
pub open spec fn add_unique_trimmed(acc: Seq<Seq<char>>, ms: Seq<Seq<char>>) -> Seq<Seq<char>>
    decreases ms.len(),
{
    if ms.len() == 0 {
        acc
    } else {
        let before = add_unique_trimmed(acc, ms.drop_last());
        let t = trim(ms.last());
        if t.len() > 0 && !before.contains(t) {
            before.push(t)
        } else {
            before
        }
    }
}

fn push_unique_trimmed(out: &mut Vec<String>, items: &Vec<String>)
    ensures
        crate::text::string_views(final(out)@) == add_unique_trimmed(
            crate::text::string_views(old(out)@),
            crate::text::string_views(items@),
        ),
{
    let ghost start = crate::text::string_views(out@);
    let ghost ms = crate::text::string_views(items@);
    let mut i: usize = 0;
    while i < items.len()
        invariant
            i <= items@.len(),
            ms == crate::text::string_views(items@),
            crate::text::string_views(out@) == add_unique_trimmed(start, ms.take(i as int)),
        decreases items@.len() - i,
    {
        assert(ms.take(i + 1).drop_last() =~= ms.take(i as int));
        assert(ms.take(i + 1).last() == items@[i as int]@);
        let t = trim_str(items[i].as_str());
        if t.len() > 0 {
            let ts = from_chars(&t);
            let mut found = false;
            let mut k: usize = 0;
            while k < out.len()
                invariant
                    k <= out@.len(),
                    ts@ == t@,
                    found == exists|j: int| 0 <= j < k && out@[j]@ == t@,
                decreases out@.len() - k,
            {
                if out[k] == ts {
                    found = true;
                }
                k += 1;
            }
            proof {
                let cur = crate::text::string_views(out@);
                if cur.contains(t@) {
                    let j = cur.index_of(t@);
                    assert(out@[j]@ == t@);
                }
                if found {
                    let j = choose|j: int| 0 <= j < k && out@[j]@ == t@;
                    assert(cur[j] == t@);
                }
            }
            if !found {
                let ghost before = out@;
                out.push(ts);
                assert(crate::text::string_views(out@) =~= crate::text::string_views(before).push(t@));
            }
        }
        i += 1;
    }
    assert(ms.take(i as int) =~= ms);
}

/// The model ids of a catalog, trimmed, blank ones and repeats left out.
pub fn normalize_remote_models(models: Vec<String>) -> (r: Vec<String>)
    ensures
        crate::text::string_views(r@) == add_unique_trimmed(Seq::empty(), crate::text::string_views(models@)),
{
    let mut normalized: Vec<String> = Vec::new();
    assert(crate::text::string_views(normalized@) =~= Seq::<Seq<char>>::empty());
    push_unique_trimmed(&mut normalized, &models);
    normalized
}

/// The models offered in the picker: those discovered (or the known ones
/// where none were), then the known ones, trimmed, each once.
pub fn model_catalog(current_model: &str, discovered_models: &Vec<String>) -> (r: Vec<String>)
    ensures
        crate::text::string_views(r@) == add_unique_trimmed(
            add_unique_trimmed(
                Seq::empty(),
                if discovered_models@.len() == 0 {
                    model_list_spec(current_model@)
                } else {
                    crate::text::string_views(discovered_models@)
                },
            ),
            model_list_spec(current_model@),
        ),
{
    let known = known_mimo_models(current_model);
    let mut models: Vec<String> = Vec::new();
    assert(crate::text::string_views(models@) =~= Seq::<Seq<char>>::empty());
    if discovered_models.len() == 0 {
        push_unique_trimmed(&mut models, &known);
    } else {
        push_unique_trimmed(&mut models, discovered_models);
    }
    push_unique_trimmed(&mut models, &known);
    models
}

} // verus!
