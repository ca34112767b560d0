//! Generation with a language model: which provider a configuration
//! builds (and why one is refused), the endpoint URLs, the mapping of
//! HTTP and stream failures to errors, the text each streamed event adds,
//! and the requests of a commit message and of a (map-reduce) report.

use vstd::prelude::*;
use crate::text::{trim, starts_with, ends_with, trim_end_char, strs, opt_str, dec_string, to_chars, trim_chars, trim_end_char_chars, has_prefix, has_suffix, match_at, eq_chars, string_of, string_of_range, push_str, push_u64, push_char};
use crate::error::AppError;
use crate::aggregate::{zero_pad, push_padded, day_date};
use crate::calendar::{LocalTime, days_date};
use crate::ai_config::{AiConfig, AiConfigV, ProviderKind};
use crate::sse::{SseEvent, SseEventV};
use crate::model::{seq_view, DiffModel, DiffFileV, NumstatCommit, NumstatCommitV};
use crate::context::{PathFilter, DiffBudget, DiffContextV, build_diff_context, diff_context_spec, diff_context_text, file_body_lines, sum_added, sum_removed, rendered_kept, budgeted, render_spec, file_path, excluded_by, batch_text, needs_map_reduce, batch_for_map_reduce, batches_of, listing_sizes, index_batches, render_report_batch, render_report_batch_refs, byte_len, MAP_REDUCE_COMMIT_THRESHOLD, MAP_REDUCE_CHARS_THRESHOLD, BATCH_MAX_COMMITS, BATCH_MAX_CHARS, lemma_render_added_le};
use crate::prompt::{commit_message_system, commit_message_user, commit_system_text, report_system, report_system_text, report_user, report_user_text, map_system, map_system_text, map_user, reduce_system, reduce_user, reduce_user_text};

verus! {

// =====================
// Provider selection
// =====================

/// How requests are authenticated.
#[derive(Debug, Clone, Copy, PartialEq, Eq, Structural)]
pub enum AuthStyle {
    /// `Authorization: Bearer <key>`.
    Bearer,
    /// `x-api-key: <key>`.
    XApiKey,
    /// No auth header.
    NoAuth,
}

/// The wire format a provider speaks.
#[derive(Debug, Clone, Copy, PartialEq, Eq, Structural)]
pub enum WireFormat {
    /// OpenAI chat completions (also Ollama and custom endpoints).
    OpenAi,
    /// Anthropic Messages.
    Anthropic,
}

/// Everything a provider client is built from.
#[derive(Debug, Clone)]
pub struct ProviderPlan {
    pub wire: WireFormat,
    /// The full endpoint URL.
    pub url: String,
    pub key: String,
    pub auth: AuthStyle,
    pub model: String,
    pub timeout_secs: u32,
    pub label: String,
}

pub struct ProviderPlanV {
    pub wire: WireFormat,
    pub url: Seq<char>,
    pub key: Seq<char>,
    pub auth: AuthStyle,
    pub model: Seq<char>,
    pub timeout_secs: u32,
    pub label: Seq<char>,
}

impl View for ProviderPlan {
    type V = ProviderPlanV;

    open spec fn view(&self) -> ProviderPlanV {
        ProviderPlanV {
            wire: self.wire,
            url: self.url@,
            key: self.key@,
            auth: self.auth,
            model: self.model@,
            timeout_secs: self.timeout_secs,
            label: self.label@,
        }
    }
}

/// `s` with every leading repetition of `p` removed.
pub open spec fn strip_all_prefix(s: Seq<char>, p: Seq<char>) -> Seq<char>
    decreases s.len(),
{
    if p.len() > 0 && starts_with(s, p) {
        strip_all_prefix(s.skip(p.len() as int), p)
    } else {
        s
    }
}

/// Where the first `/` or `:` of `s` is, if any, from `i` on.
pub open spec fn first_sep_from(s: Seq<char>, i: int) -> int
    decreases s.len() - i,
{
    if i < 0 || i >= s.len() {
        s.len() as int
    } else if s[i] == '/' || s[i] == ':' {
        i
    } else {
        first_sep_from(s, i + 1)
    }
}

/// The host of a base URL: scheme removed, up to the first `/` or `:`.
pub open spec fn host_of(url: Seq<char>) -> Seq<char> {
    let s = strip_all_prefix(strip_all_prefix(trim(url), "https://"@), "http://"@);
    s.take(first_sep_from(s, 0))
}

/// The name a provider is shown under (Ollama marked local and offline).
pub open spec fn label_spec(cfg: AiConfigV) -> Seq<char> {
    let model = trim(cfg.model);
    let host = host_of(cfg.base_url);
    match cfg.provider {
        ProviderKind::Ollama => "Ollama（本地离线）· "@ + model,
        ProviderKind::OpenAiCompatible => "OpenAI 兼容 · "@ + host + " · "@ + model,
        ProviderKind::Anthropic => "Anthropic · "@ + model,
        ProviderKind::Custom => "自定义端点 · "@ + host + " · "@ + model,
    }
}

/// The chat completions endpoint under an API root.
pub open spec fn completions_url_spec(base: Seq<char>) -> Seq<char> {
    trim_end_char(base, '/') + "/chat/completions"@
}

/// The Messages endpoint under an API root (that may end in `/v1`).
pub open spec fn messages_url_spec(base: Seq<char>) -> Seq<char> {
    let b = trim_end_char(base, '/');
    if ends_with(b, "/v1"@) {
        b + "/messages"@
    } else {
        b + "/v1/messages"@
    }
}

pub open spec fn is_http_url(s: Seq<char>) -> bool {
    starts_with(s, "http://"@) || starts_with(s, "https://"@)
}

/// The auth style named in the settings (`bearer` for anything unknown).
pub open spec fn custom_auth_style(s: Seq<char>) -> AuthStyle {
    if s == "x_api_key"@ {
        AuthStyle::XApiKey
    } else if s == "none"@ {
        AuthStyle::NoAuth
    } else {
        AuthStyle::Bearer
    }
}

/// A key that is not blank.
pub open spec fn usable_key(key: Option<Seq<char>>) -> Option<Seq<char>> {
    match key {
        Some(k) => if trim(k).len() > 0 {
            Some(k)
        } else {
            None
        },
        None => None,
    }
}

pub open spec fn make_plan(
    wire: WireFormat,
    url: Seq<char>,
    key: Seq<char>,
    auth: AuthStyle,
    cfg: AiConfigV,
) -> ProviderPlanV {
    ProviderPlanV {
        wire,
        url,
        key,
        auth,
        model: trim(cfg.model),
        timeout_secs: if cfg.timeout_secs < 5 {
            5
        } else {
            cfg.timeout_secs
        },
        label: label_spec(cfg),
    }
}

/// The provider a configuration and stored key give, or why there is
/// none (a configuration error, never a network one).
pub open spec fn plan_spec(cfg: AiConfigV, key: Option<Seq<char>>) -> Result<ProviderPlanV, Seq<char>> {
    let k = usable_key(key);
    let base = trim_end_char(trim(cfg.base_url), '/');
    if trim(cfg.model).len() == 0 {
        Err("model is not configured (Settings → AI)"@)
    } else {
        match cfg.provider {
            ProviderKind::Ollama => if base.len() == 0 {
                Err("Base URL is empty"@)
            } else {
                Ok(make_plan(WireFormat::OpenAi, completions_url_spec(base), Seq::<char>::empty(), AuthStyle::NoAuth, cfg))
            },
            ProviderKind::OpenAiCompatible => if base.len() == 0 {
                Err("Base URL is empty"@)
            } else if !is_http_url(base) {
                Err("invalid Base URL: "@ + base)
            } else {
                match k {
                    None => Err("API key is missing (Settings → AI → 保存密钥)"@),
                    Some(key) => Ok(make_plan(WireFormat::OpenAi, completions_url_spec(base), key, AuthStyle::Bearer, cfg)),
                }
            },
            ProviderKind::Anthropic => if base.len() == 0 {
                Err("Base URL is empty"@)
            } else if !is_http_url(base) {
                Err("invalid Base URL: "@ + base)
            } else {
                match k {
                    None => Err("API key is missing (Settings → AI → 保存密钥)"@),
                    Some(key) => Ok(make_plan(WireFormat::Anthropic, messages_url_spec(base), key, AuthStyle::XApiKey, cfg)),
                }
            },
            ProviderKind::Custom => if !is_http_url(base) {
                Err("custom endpoint must be a full http(s) URL"@)
            } else if custom_auth_style(cfg.custom_auth) != AuthStyle::NoAuth && k is None {
                Err("auth style requires an API key (or switch to none)"@)
            } else {
                Ok(make_plan(
                    WireFormat::OpenAi,
                    base,
                    match k {
                        Some(key) => key,
                        None => Seq::<char>::empty(),
                    },
                    custom_auth_style(cfg.custom_auth),
                    cfg,
                ))
            },
        }
    }
}

fn starts_with_text(s: &[char], p: &str) -> (r: bool)
    ensures
        r == starts_with(s@, p@),
{
    let pc = to_chars(p);
    has_prefix(s, pc.as_slice())
}

fn strip_all_prefix_chars(s: &[char], p: &str) -> (r: Vec<char>)
    ensures
        r@ == strip_all_prefix(s@, p@),
{
    let pc = to_chars(p);
    let mut i: usize = 0;
    assert(s@.skip(0) =~= s@);
    while pc.len() > 0 && i < s.len() && match_at(s, pc.as_slice(), i)
        invariant
            0 <= i <= s@.len(),
            pc@ == p@,
            strip_all_prefix(s@, p@) == strip_all_prefix(s@.skip(i as int), p@),
        decreases s.len() - i,
    {
        assert(s@.skip(i as int).subrange(0, pc@.len() as int) =~= s@.subrange(i as int, i + pc@.len()));
        assert(s@.skip(i as int).skip(pc@.len() as int) =~= s@.skip(i + pc@.len()));
        i = i + pc.len();
    }
    proof {
        if pc@.len() > 0 && i < s@.len() {
            if starts_with(s@.skip(i as int), p@) {
                assert(s@.skip(i as int).subrange(0, pc@.len() as int) =~= s@.subrange(i as int, i + pc@.len()));
            }
        }
        if pc@.len() > 0 && i == s@.len() {
            assert(s@.skip(i as int).len() == 0);
        }
    }
    let r = slice_to_vec(s, i);
    r
}

fn slice_to_vec(s: &[char], from: usize) -> (r: Vec<char>)
    requires
        from <= s@.len(),
    ensures
        r@ == s@.skip(from as int),
{
    let mut r: Vec<char> = Vec::new();
    let mut i: usize = from;
    while i < s.len()
        invariant
            from <= i <= s@.len(),
            r@ == s@.subrange(from as int, i as int),
        decreases s.len() - i,
    {
        r.push(s[i]);
        assert(s@.subrange(from as int, i + 1) =~= s@.subrange(from as int, i as int).push(s@[i as int]));
        i += 1;
    }
    assert(s@.subrange(from as int, s@.len() as int) =~= s@.skip(from as int));
    r
}

/// The host part of a base URL.
fn host_of_exec(url: &str) -> (r: String)
    ensures
        r@ == host_of(url@),
{
    let c = to_chars(url);
    let t = trim_chars(c.as_slice());
    let a = strip_all_prefix_chars(t.as_slice(), "https://");
    let b = strip_all_prefix_chars(a.as_slice(), "http://");
    let mut i: usize = 0;
    while i < b.len() && b[i] != '/' && b[i] != ':'
        invariant
            0 <= i <= b@.len(),
            first_sep_from(b@, 0) == first_sep_from(b@, i as int),
        decreases b.len() - i,
    {
        i += 1;
    }
    let r = string_of_range(b.as_slice(), 0, i);
    assert(b@.subrange(0, i as int) =~= b@.take(i as int));
    r
}

/// The name a provider is shown under.
pub fn provider_label(cfg: &AiConfig) -> (r: String)
    ensures
        r@ == label_spec(cfg@),
{
    let mc = to_chars(cfg.model.as_str());
    let model = string_of(trim_chars(mc.as_slice()).as_slice());
    let host = host_of_exec(cfg.base_url.as_str());
    let mut out = String::new();
    match cfg.provider {
        ProviderKind::Ollama => {
            push_str(&mut out, "Ollama（本地离线）· ");
            push_str(&mut out, model.as_str());
        },
        ProviderKind::OpenAiCompatible => {
            push_str(&mut out, "OpenAI 兼容 · ");
            push_str(&mut out, host.as_str());
            push_str(&mut out, " · ");
            push_str(&mut out, model.as_str());
        },
        ProviderKind::Anthropic => {
            push_str(&mut out, "Anthropic · ");
            push_str(&mut out, model.as_str());
        },
        ProviderKind::Custom => {
            push_str(&mut out, "自定义端点 · ");
            push_str(&mut out, host.as_str());
            push_str(&mut out, " · ");
            push_str(&mut out, model.as_str());
        },
    }
    out
}

/// The chat completions endpoint under an API root.
pub fn completions_url(base: &str) -> (r: String)
    ensures
        r@ == completions_url_spec(base@),
{
    let c = to_chars(base);
    let b = trim_end_char_chars(c.as_slice(), '/');
    let mut out = string_of(b.as_slice());
    push_str(&mut out, "/chat/completions");
    out
}

/// The Messages endpoint under an API root.
pub fn messages_url(base: &str) -> (r: String)
    ensures
        r@ == messages_url_spec(base@),
{
    let c = to_chars(base);
    let b = trim_end_char_chars(c.as_slice(), '/');
    let v1 = to_chars("/v1");
    let mut out = string_of(b.as_slice());
    if has_suffix(b.as_slice(), v1.as_slice()) {
        push_str(&mut out, "/messages");
    } else {
        push_str(&mut out, "/v1/messages");
    }
    out
}

fn config_error(m: &str) -> (r: AppError)
    ensures
        r matches AppError::AiConfig { message } && message@ == m@,
{
    AppError::ai_config(m.to_string())
}

/// Chooses the provider for a configuration and the stored key: the
/// model must be set; Ollama needs a base URL; OpenAI-compatible and
/// Anthropic need an http(s) base URL and a key; a custom endpoint needs
/// a full http(s) URL, and a key unless its auth style is `none`.
pub fn plan_provider(cfg: &AiConfig, key: Option<String>) -> (r: Result<ProviderPlan, AppError>)
    ensures
        match plan_spec(cfg@, opt_str(key)) {
            Ok(p) => r matches Ok(q) && q@ == p,
            Err(m) => r matches Err(AppError::AiConfig { message }) && message@ == m,
        },
{
    let mc = to_chars(cfg.model.as_str());
    let model_t = trim_chars(mc.as_slice());
    if model_t.len() == 0 {
        return Err(config_error("model is not configured (Settings → AI)"));
    }
    let model = string_of(model_t.as_slice());
    let key: Option<String> = match key {
        Some(k) => {
            let kc = to_chars(k.as_str());
            if trim_chars(kc.as_slice()).len() > 0 {
                Some(k)
            } else {
                None
            }
        },
        None => None,
    };
    let label = provider_label(cfg);
    let timeout: u32 = if cfg.timeout_secs < 5 {
        5
    } else {
        cfg.timeout_secs
    };
    let bc = to_chars(cfg.base_url.as_str());
    let bt = trim_chars(bc.as_slice());
    let b = trim_end_char_chars(bt.as_slice(), '/');
    let base = string_of(b.as_slice());
    let http = starts_with_text(b.as_slice(), "http://") || starts_with_text(b.as_slice(), "https://");
    match cfg.provider {
        ProviderKind::Ollama => {
            if b.len() == 0 {
                return Err(config_error("Base URL is empty"));
            }
            Ok(
                ProviderPlan {
                    wire: WireFormat::OpenAi,
                    url: completions_url(base.as_str()),
                    key: String::new(),
                    auth: AuthStyle::NoAuth,
                    model,
                    timeout_secs: timeout,
                    label,
                },
            )
        },
        ProviderKind::OpenAiCompatible | ProviderKind::Anthropic => {
            if b.len() == 0 {
                return Err(config_error("Base URL is empty"));
            }
            if !http {
                let mut m = String::new();
                push_str(&mut m, "invalid Base URL: ");
                push_str(&mut m, base.as_str());
                return Err(AppError::ai_config(m));
            }
            let key = match key {
                Some(k) => k,
                None => return Err(config_error("API key is missing (Settings → AI → 保存密钥)")),
            };
            let anthropic = matches!(cfg.provider, ProviderKind::Anthropic);
            let url = if anthropic {
                messages_url(base.as_str())
            } else {
                completions_url(base.as_str())
            };
            Ok(
                ProviderPlan {
                    wire: if anthropic {
                        WireFormat::Anthropic
                    } else {
                        WireFormat::OpenAi
                    },
                    url,
                    key,
                    auth: if anthropic {
                        AuthStyle::XApiKey
                    } else {
                        AuthStyle::Bearer
                    },
                    model,
                    timeout_secs: timeout,
                    label,
                },
            )
        },
        ProviderKind::Custom => {
            if !http {
                return Err(config_error("custom endpoint must be a full http(s) URL"));
            }
            let ac = to_chars(cfg.custom_auth.as_str());
            let x = to_chars("x_api_key");
            let none = to_chars("none");
            let auth = if eq_chars(ac.as_slice(), x.as_slice()) {
                AuthStyle::XApiKey
            } else if eq_chars(ac.as_slice(), none.as_slice()) {
                AuthStyle::NoAuth
            } else {
                AuthStyle::Bearer
            };
            if auth != AuthStyle::NoAuth && key.is_none() {
                return Err(config_error("auth style requires an API key (or switch to none)"));
            }
            let key = match key {
                Some(k) => k,
                None => String::new(),
            };
            Ok(ProviderPlan { wire: WireFormat::OpenAi, url: base, key, auth, model, timeout_secs: timeout, label })
        },
    }
}

/// The auth header a request carries: none without a key.
pub fn auth_header(auth: AuthStyle, key: &str) -> (r: Option<(String, String)>)
    ensures
        key@.len() == 0 ==> r is None,
        key@.len() > 0 ==> match auth {
            AuthStyle::Bearer => r matches Some((n, v)) && n@ == "authorization"@ && v@ == "Bearer "@ + key@,
            AuthStyle::XApiKey => r matches Some((n, v)) && n@ == "x-api-key"@ && v@ == key@,
            AuthStyle::NoAuth => r is None,
        },
{
    if key.is_empty() {
        return None;
    }
    match auth {
        AuthStyle::Bearer => {
            let mut v = String::new();
            push_str(&mut v, "Bearer ");
            push_str(&mut v, key);
            Some(("authorization".to_string(), v))
        },
        AuthStyle::XApiKey => Some(("x-api-key".to_string(), key.to_string())),
        AuthStyle::NoAuth => None,
    }
}

// =====================
// JSON payloads (serde_json)
// =====================

/// What `serde_json` reports for text that is not JSON; `None` for JSON.
pub uninterp spec fn json_error_text(text: Seq<char>) -> Option<Seq<char>>;

/// The string at a JSON pointer of the parsed text; `None` when the text
/// is not JSON or nothing, or no string, is there.
pub uninterp spec fn json_str_value(text: Seq<char>, pointer: Seq<char>) -> Option<Seq<char>>;

/// `serde_json::from_str::<Value>` and the error's text. Claimed: the
/// result is `json_error_text` of the text, a function of it alone.
#[verifier::external_body]
fn json_parse_error(text: &str) -> (r: Option<String>)
    ensures
        opt_str(r) == json_error_text(text@),
{
    match serde_json::from_str::<serde_json::Value>(text) {
        Ok(_) => None,
        Err(e) => Some(e.to_string()),
    }
}

/// `serde_json::from_str::<Value>`, then `Value::pointer` and `as_str`.
/// Claimed: the result is `json_str_value` of the two texts, a function
/// of them alone.
#[verifier::external_body]
fn json_str_at(text: &str, pointer: &str) -> (r: Option<String>)
    ensures
        opt_str(r) == json_str_value(text@, pointer@),
{
    match serde_json::from_str::<serde_json::Value>(text) {
        Ok(v) => v.pointer(pointer).and_then(|x| x.as_str()).map(|x| x.to_string()),
        Err(_) => None,
    }
}

// =====================
// HTTP and stream failures
// =====================

/// The detail of an HTTP error: the body's `error.message`, else its
/// first 300 characters.
pub open spec fn http_detail(body: Seq<char>) -> Seq<char> {
    match json_str_value(body, "/error/message"@) {
        Some(m) => m,
        None => if body.len() <= 300 {
            body
        } else {
            body.take(300)
        },
    }
}

/// Maps an HTTP error status and body to the error the user sees: 401 and
/// 403 are auth failures, 429 a rate limit, anything else a provider error.
pub fn map_http_error(status: u16, body: &str) -> (r: AppError)
    ensures
        (status == 401 || status == 403) ==> (r matches AppError::AiAuth { status: s, message }
            && s == status as u32 && message@ == http_detail(body@)),
        status == 429 ==> (r matches AppError::AiRateLimit { status: s, message } && s == status as u32
            && message@ == http_detail(body@)),
        !(status == 401 || status == 403 || status == 429) ==> (r matches AppError::AiProvider {
            status: s,
            message,
        } && s == status as u32 && message@ == http_detail(body@)),
{
    let detail = match json_str_at(body, "/error/message") {
        Some(m) => m,
        None => {
            let c = to_chars(body);
            let n: usize = if c.len() <= 300 {
                c.len()
            } else {
                300
            };
            let d = string_of_range(c.as_slice(), 0, n);
            assert(c@.subrange(0, n as int) =~= (if c@.len() <= 300 {
                c@
            } else {
                c@.take(300)
            }));
            d
        },
    };
    if status == 401 || status == 403 {
        AppError::AiAuth { status: status as u32, message: detail }
    } else if status == 429 {
        AppError::AiRateLimit { status: status as u32, message: detail }
    } else {
        AppError::AiProvider { status: status as u32, message: detail }
    }
}

/// A transport failure (no connection, DNS, timeout) as a network error.
pub fn map_transport_error(timed_out: bool, connect_failed: bool, detail: &str) -> (r: AppError)
    ensures
        r matches AppError::AiNetwork { message } && message@ == (if timed_out {
            "timed out"@
        } else if connect_failed {
            "connection failed"@
        } else {
            "request failed"@
        }) + ": "@ + detail@,
{
    let mut m = String::new();
    if timed_out {
        push_str(&mut m, "timed out");
    } else if connect_failed {
        push_str(&mut m, "connection failed");
    } else {
        push_str(&mut m, "request failed");
    }
    push_str(&mut m, ": ");
    push_str(&mut m, detail);
    AppError::ai_network(m)
}

/// The error of a stream that stalled for `secs` seconds.
pub fn idle_timeout_error(secs: u64) -> (r: AppError)
    ensures
        r matches AppError::AiNetwork { message } && message@ == "idle timeout after "@ + dec_string(secs as nat)
            + "s (stream stalled)"@,
{
    let mut m = String::new();
    push_str(&mut m, "idle timeout after ");
    push_u64(&mut m, secs);
    push_str(&mut m, "s (stream stalled)");
    AppError::ai_network(m)
}

/// Why one streamed event is refused.
pub enum DeltaFault {
    /// The payload is not JSON (with `serde_json`'s message).
    BadJson(Seq<char>),
    /// The provider reported an error inside the stream.
    Stream(Seq<char>),
}

/// The text one streamed event adds, per wire format: OpenAI events carry
/// `choices[0].delta.content` and end with `[DONE]`; Anthropic
/// `content_block_delta` events carry `delta.text`, `error` events fail.
pub open spec fn delta_spec(wire: WireFormat, data: Seq<char>) -> Result<Option<Seq<char>>, DeltaFault> {
    if wire == WireFormat::OpenAi && data == "[DONE]"@ {
        Ok(None)
    } else if json_error_text(data) is Some {
        Err(DeltaFault::BadJson(json_error_text(data)->0))
    } else if wire == WireFormat::OpenAi {
        match json_str_value(data, "/choices/0/delta/content"@) {
            Some(c) => if c.len() > 0 {
                Ok(Some(c))
            } else {
                Ok(None)
            },
            None => Ok(None),
        }
    } else if json_str_value(data, "/type"@) == Some("content_block_delta"@) {
        match json_str_value(data, "/delta/text"@) {
            Some(t) => if t.len() > 0 {
                Ok(Some(t))
            } else {
                Ok(None)
            },
            None => Ok(None),
        }
    } else if json_str_value(data, "/type"@) == Some("error"@) {
        Err(
            DeltaFault::Stream(
                match json_str_value(data, "/error/message"@) {
                    Some(m) => m,
                    None => "stream error"@,
                },
            ),
        )
    } else {
        Ok(None)
    }
}

/// The error a refused event becomes.
pub open spec fn fault_matches(e: AppError, f: DeltaFault) -> bool {
    match f {
        DeltaFault::BadJson(m) => e matches AppError::AiNetwork { message } && message@ == "bad SSE json: "@ + m,
        DeltaFault::Stream(m) => e matches AppError::AiProvider { status, message } && status == 200
            && message@ == m,
    }
}

fn eq_text(s: &str, t: &str) -> (r: bool)
    ensures
        r == (s@ == t@),
{
    let a = to_chars(s);
    let b = to_chars(t);
    eq_chars(a.as_slice(), b.as_slice())
}

fn non_empty(o: Option<String>) -> (r: Option<String>)
    ensures
        match opt_str(o) {
            Some(t) => if t.len() > 0 {
                opt_str(r) == Some(t)
            } else {
                r is None
            },
            None => r is None,
        },
{
    match o {
        Some(t) => if t.as_str().is_empty() {
            None
        } else {
            Some(t)
        },
        None => None,
    }
}

/// The text one streamed event adds.
pub fn event_delta(wire: WireFormat, data: &str) -> (r: Result<Option<String>, AppError>)
    ensures
        match delta_spec(wire, data@) {
            Ok(t) => r matches Ok(o) && opt_str(o) == t,
            Err(f) => r matches Err(e) && fault_matches(e, f),
        },
{
    if wire == WireFormat::OpenAi && eq_text(data, "[DONE]") {
        return Ok(None);
    }
    match json_parse_error(data) {
        Some(e) => {
            let mut m = String::new();
            push_str(&mut m, "bad SSE json: ");
            push_str(&mut m, e.as_str());
            return Err(AppError::ai_network(m));
        },
        None => {},
    }
    if wire == WireFormat::OpenAi {
        return Ok(non_empty(json_str_at(data, "/choices/0/delta/content")));
    }
    let ty = json_str_at(data, "/type");
    let is_delta = match &ty {
        Some(t) => eq_text(t.as_str(), "content_block_delta"),
        None => false,
    };
    if is_delta {
        return Ok(non_empty(json_str_at(data, "/delta/text")));
    }
    let is_error = match &ty {
        Some(t) => eq_text(t.as_str(), "error"),
        None => false,
    };
    if is_error {
        let m = match json_str_at(data, "/error/message") {
            Some(m) => m,
            None => "stream error".to_string(),
        };
        return Err(AppError::AiProvider { status: 200, message: m });
    }
    Ok(None)
}

/// The texts a run of streamed events adds, in order, up to the first
/// refused event. Events without data are skipped when `skip_empty`.
pub open spec fn deltas_spec(wire: WireFormat, evs: Seq<SseEventV>, skip_empty: bool) -> Result<Seq<Seq<char>>, DeltaFault>
    decreases evs.len(),
{
    if evs.len() == 0 {
        Ok(Seq::<Seq<char>>::empty())
    } else {
        match deltas_spec(wire, evs.drop_last(), skip_empty) {
            Err(f) => Err(f),
            Ok(ds) => if skip_empty && evs.last().data.len() == 0 {
                Ok(ds)
            } else {
                match delta_spec(wire, evs.last().data) {
                    Err(f) => Err(f),
                    Ok(None) => Ok(ds),
                    Ok(Some(t)) => Ok(ds.push(t)),
                }
            },
        }
    }
}

/// The texts a run of streamed events adds.
pub fn stream_deltas(wire: WireFormat, events: &[SseEvent], skip_empty: bool) -> (r: Result<Vec<String>, AppError>)
    ensures
        match deltas_spec(wire, seq_view(events@), skip_empty) {
            Ok(ds) => r matches Ok(v) && strs(v@) == ds,
            Err(f) => r matches Err(e) && fault_matches(e, f),
        },
{
    let ghost evs = seq_view(events@);
    let mut out: Vec<String> = Vec::new();
    let mut i: usize = 0;
    assert(evs.take(0) =~= Seq::<SseEventV>::empty());
    assert(strs(out@) =~= Seq::<Seq<char>>::empty());
    while i < events.len()
        invariant
            0 <= i <= events@.len(),
            evs == seq_view(events@),
            deltas_spec(wire, evs.take(i as int), skip_empty) == Ok::<Seq<Seq<char>>, DeltaFault>(strs(out@)),
        decreases events.len() - i,
    {
        let ev = &events[i];
        proof {
            assert(evs.take(i + 1).drop_last() =~= evs.take(i as int));
            assert(evs.take(i + 1).last() == ev@);
        }
        if !(skip_empty && ev.data.as_str().is_empty()) {
            match event_delta(wire, ev.data.as_str()) {
                Err(e) => {
                    proof {
                        assert(evs.take(i + 1) =~= evs.take(i + 1));
                        lemma_deltas_err_stays(wire, evs, skip_empty, i + 1);
                    }
                    return Err(e);
                },
                Ok(None) => {},
                Ok(Some(t)) => {
                    let ghost before = out@;
                    out.push(t);
                    assert(strs(out@) =~= strs(before).push(t@));
                },
            }
        }
        i += 1;
    }
    assert(evs.take(evs.len() as int) =~= evs);
    Ok(out)
}

/// Once the events refuse, later events do not change the outcome.
proof fn lemma_deltas_err_stays(wire: WireFormat, evs: Seq<SseEventV>, skip_empty: bool, i: int)
    requires
        0 <= i <= evs.len(),
        deltas_spec(wire, evs.take(i), skip_empty) is Err,
    ensures
        deltas_spec(wire, evs, skip_empty) == deltas_spec(wire, evs.take(i), skip_empty),
    decreases evs.len() - i,
{
    if i < evs.len() {
        assert(evs.take(i + 1).drop_last() =~= evs.take(i));
        lemma_deltas_err_stays(wire, evs, skip_empty, i + 1);
    } else {
        assert(evs.take(i) =~= evs);
    }
}

// =====================
// Requests
// =====================

/// One completion request: the prompts and the output limit.
#[derive(Debug, Clone)]
pub struct CompletionRequest {
    pub system: String,
    pub user: String,
    /// Output limit in tokens.
    pub max_tokens: u32,
}

pub struct CompletionRequestV {
    pub system: Seq<char>,
    pub user: Seq<char>,
    pub max_tokens: u32,
}

impl View for CompletionRequest {
    type V = CompletionRequestV;

    open spec fn view(&self) -> CompletionRequestV {
        CompletionRequestV { system: self.system@, user: self.user@, max_tokens: self.max_tokens }
    }
}

/// Content lines of all files of a diff.
pub open spec fn model_body_lines(files: Seq<DiffFileV>) -> nat
    decreases files.len(),
{
    if files.len() == 0 {
        0
    } else {
        model_body_lines(files.drop_last()) + file_body_lines(files.last().hunks)
    }
}

proof fn lemma_model_lines_each(files: Seq<DiffFileV>, k: int)
    requires
        0 <= k < files.len(),
    ensures
        file_body_lines(files[k].hunks) <= model_body_lines(files),
    decreases files.len(),
{
    if k < files.len() - 1 {
        lemma_model_lines_each(files.drop_last(), k);
    }
}

/// The request of a commit message for a staged diff; refused when
/// nothing is staged.
pub fn commit_message_request(model: &DiffModel, filter: &PathFilter, conventional: bool, language: &str) -> (r: Result<CompletionRequest, AppError>)
    requires
        model_body_lines(model@.files) <= u32::MAX,
    ensures
        model@.files.len() == 0 ==> (r matches Err(AppError::Parse { message }) && message@
            == "nothing staged: stage some changes before generating a commit message"@),
        model@.files.len() > 0 ==> (r matches Ok(q) && q@ == CompletionRequestV {
            system: commit_system_text(conventional, language@),
            user: "Write one commit message for the following staged changes.\n\n"@ + diff_context_text(
                diff_context_spec(model@.files, filter@.regexes, 300, 60_000),
            ),
            max_tokens: 500,
        }),
{
    if model.files.len() == 0 {
        return Err(
            AppError::parse("nothing staged: stage some changes before generating a commit message".to_string()),
        );
    }
    proof {
        assert forall|k: int| 0 <= k < model@.files.len() implies file_body_lines(#[trigger] model@.files[k].hunks)
            <= u32::MAX by {
            lemma_model_lines_each(model@.files, k);
        }
    }
    let budget = DiffBudget::default();
    let ctx = build_diff_context(model, filter, &budget);
    proof {
        lemma_context_sums(model@.files, filter@.regexes, 300, 60_000);
    }
    let system = commit_message_system(conventional, language);
    let user = commit_message_user(&ctx);
    Ok(CompletionRequest { system, user, max_tokens: 500 })
}

/// The added and removed counts of a sampled context stay within the
/// diff's content lines.
proof fn lemma_context_sums(files: Seq<DiffFileV>, regexes: Seq<Seq<char>>, per_file: nat, total: nat)
    ensures
        sum_added(diff_context_spec(files, regexes, per_file, total).files) <= model_body_lines(files),
        sum_removed(diff_context_spec(files, regexes, per_file, total).files) <= model_body_lines(files),
{
    let cs = rendered_kept(files, regexes, per_file);
    lemma_kept_sums(files, regexes, per_file);
    lemma_same_counts_same_sums(budgeted(cs, total), cs);
}

proof fn lemma_same_counts_same_sums(a: Seq<crate::context::DiffFileCtxV>, b: Seq<crate::context::DiffFileCtxV>)
    requires
        a.len() == b.len(),
        forall|i: int| 0 <= i < a.len() ==> #[trigger] a[i].added == b[i].added && a[i].removed == b[i].removed,
    ensures
        sum_added(a) == sum_added(b),
        sum_removed(a) == sum_removed(b),
    decreases a.len(),
{
    if a.len() > 0 {
        lemma_same_counts_same_sums(a.drop_last(), b.drop_last());
        assert(a.last() == a[a.len() - 1]);
    }
}

proof fn lemma_kept_sums(files: Seq<DiffFileV>, regexes: Seq<Seq<char>>, per_file: nat)
    ensures
        sum_added(rendered_kept(files, regexes, per_file)) <= model_body_lines(files),
        sum_removed(rendered_kept(files, regexes, per_file)) <= model_body_lines(files),
    decreases files.len(),
{
    if files.len() > 0 {
        lemma_kept_sums(files.drop_last(), regexes, per_file);
        let f = files.last();
        lemma_render_added_le(f, file_path(f), per_file);
        let prev = rendered_kept(files.drop_last(), regexes, per_file);
        if !excluded_by(regexes, file_path(f)) {
            let c = render_spec(f, file_path(f), per_file);
            assert(rendered_kept(files, regexes, per_file) == prev.push(c));
            assert(prev.push(c).drop_last() =~= prev);
        } else {
            assert(rendered_kept(files, regexes, per_file) == prev);
        }
    }
}

/// Presentation parameters of a report.
#[derive(Debug, Clone)]
pub struct ReportParams {
    pub kind: String,
    pub since: String,
    pub repo_count: usize,
    pub author_note: String,
    pub language: String,
}

/// How a report is generated: one request, or map requests over batches
/// of commits whose summaries a reduce request merges.
pub enum ReportPlan {
    Single(CompletionRequest),
    MapReduce { batches: Vec<Vec<usize>>, requests: Vec<CompletionRequest> },
}

/// The commits of a batch, by position.
pub open spec fn pick(cs: Seq<NumstatCommitV>, batch: Seq<int>) -> Seq<NumstatCommitV> {
    batch.map_values(|i: int| cs[i])
}

/// The map request of one batch.
pub open spec fn map_request_spec(cs: Seq<NumstatCommitV>, batch: Seq<int>, regexes: Seq<Seq<char>>, language: Seq<char>) -> CompletionRequestV {
    CompletionRequestV {
        system: map_system_text(language),
        user: "Summarize these commits:\n\n"@ + batch_text(pick(cs, batch), regexes),
        max_tokens: 1200,
    }
}

/// Plans a report over commits: refused without commits; one request
/// when the listing is small enough; otherwise map requests over batches.
pub fn plan_report(commits: &[NumstatCommit], filter: &PathFilter, params: &ReportParams) -> (r: Result<ReportPlan, AppError>)
    ensures
        commits@.len() == 0 ==> (r matches Err(AppError::Parse { message }) && message@
            == "no commits found in the selected range (nothing to report)"@),
        commits@.len() > 0 && !(commits@.len() > MAP_REDUCE_COMMIT_THRESHOLD || byte_len(
            batch_text(seq_view(commits@), filter@.regexes),
        ) > MAP_REDUCE_CHARS_THRESHOLD) ==> (r matches Ok(ReportPlan::Single(q)) && q@ == CompletionRequestV {
            system: report_system_text(params.language@),
            user: report_user_text(
                params.kind@,
                params.since@,
                params.repo_count as nat,
                params.author_note@,
                batch_text(seq_view(commits@), filter@.regexes),
            ),
            max_tokens: 4000,
        }),
        commits@.len() > 0 && (commits@.len() > MAP_REDUCE_COMMIT_THRESHOLD || byte_len(
            batch_text(seq_view(commits@), filter@.regexes),
        ) > MAP_REDUCE_CHARS_THRESHOLD) ==> (r matches Ok(ReportPlan::MapReduce { batches, requests })
            && index_batches(batches@) == batches_of(
            listing_sizes(seq_view(commits@), filter@.regexes),
            BATCH_MAX_COMMITS as nat,
            BATCH_MAX_CHARS as nat,
        ) && requests@.len() == batches@.len() && forall|i: int|
            0 <= i < requests@.len() ==> #[trigger] requests@[i]@ == map_request_spec(
                seq_view(commits@),
                index_batches(batches@)[i],
                filter@.regexes,
                params.language@,
            )),
{
    if commits.len() == 0 {
        return Err(AppError::parse("no commits found in the selected range (nothing to report)".to_string()));
    }
    if !needs_map_reduce(commits, filter) {
        let (ctx_text, _) = render_report_batch(commits, filter);
        let system = report_system(params.language.as_str());
        let user = report_user(
            params.kind.as_str(),
            params.since.as_str(),
            params.repo_count,
            params.author_note.as_str(),
            ctx_text.as_str(),
        );
        return Ok(ReportPlan::Single(CompletionRequest { system, user, max_tokens: 4000 }));
    }
    let batches = batch_for_map_reduce(commits, filter, BATCH_MAX_COMMITS, BATCH_MAX_CHARS);
    proof {
        lemma_batches_in_range(
            listing_sizes(seq_view(commits@), filter@.regexes),
            BATCH_MAX_COMMITS as nat,
            BATCH_MAX_CHARS as nat,
        );
    }
    let ghost ib = index_batches(batches@);
    let ghost cs = seq_view(commits@);
    let mut requests: Vec<CompletionRequest> = Vec::new();
    let mut i: usize = 0;
    while i < batches.len()
        invariant
            0 <= i <= batches@.len(),
            ib == index_batches(batches@),
            cs == seq_view(commits@),
            forall|b: int, t: int|
                0 <= b < ib.len() && 0 <= t < ib[b].len() ==> 0 <= #[trigger] ib[b][t] < commits@.len(),
            requests@.len() == i,
            forall|j: int|
                0 <= j < i ==> #[trigger] requests@[j]@ == map_request_spec(cs, ib[j], filter@.regexes, params.language@),
        decreases batches.len() - i,
    {
        let batch = &batches[i];
        let mut refs: Vec<&NumstatCommit> = Vec::new();
        let mut t: usize = 0;
        while t < batch.len()
            invariant
                0 <= t <= batch@.len(),
                i < batches@.len(),
                batch@ == batches@[i as int]@,
                ib == index_batches(batches@),
                cs == seq_view(commits@),
                forall|u: int| 0 <= u < ib[i as int].len() ==> 0 <= #[trigger] ib[i as int][u] < commits@.len(),
                seq_view(refs@) == pick(cs, ib[i as int]).take(t as int),
            decreases batch.len() - t,
        {
            let idx = batch[t];
            assert(ib[i as int][t as int] == idx as int);
            let ghost before = refs@;
            refs.push(&commits[idx]);
            assert(seq_view(refs@) =~= seq_view(before).push(commits@[idx as int]@));
            assert(pick(cs, ib[i as int]).take(t + 1) =~= pick(cs, ib[i as int]).take(t as int).push(cs[idx as int]));
            t += 1;
        }
        assert(pick(cs, ib[i as int]).take(batch@.len() as int) =~= pick(cs, ib[i as int]));
        let (ctx_text, _) = render_report_batch_refs(refs.as_slice(), filter);
        let system = map_system(params.language.as_str());
        let user = map_user(ctx_text.as_str());
        requests.push(CompletionRequest { system, user, max_tokens: 1200 });
        i += 1;
    }
    Ok(ReportPlan::MapReduce { batches, requests })
}

/// Every position in a batch is a commit position.
proof fn lemma_batches_in_range(sizes: Seq<nat>, mc: nat, mx: nat)
    ensures
        forall|b: int, t: int|
            0 <= b < batches_of(sizes, mc, mx).len() && 0 <= t < batches_of(sizes, mc, mx)[b].len() ==> 0
                <= #[trigger] batches_of(sizes, mc, mx)[b][t] < sizes.len(),
{
    crate::context::lemma_scan_in_range(sizes, mc, mx);
}

/// The summaries of the map stage, in batch order, or the first failure:
/// a blank summary is an error of the provider.
pub open spec fn summaries_spec(results: Seq<Result<Seq<char>, AppError>>) -> Result<Seq<Seq<char>>, (nat, Option<AppError>)>
    decreases results.len(),
{
    if results.len() == 0 {
        Ok(Seq::<Seq<char>>::empty())
    } else {
        match summaries_spec(results.drop_last()) {
            Err(x) => Err(x),
            Ok(ss) => match results.last() {
                Ok(s) => if trim(s).len() > 0 {
                    Ok(ss.push(s))
                } else {
                    Err(((results.len() - 1) as nat, None))
                },
                Err(e) => Err(((results.len() - 1) as nat, Some(e))),
            },
        }
    }
}

pub open spec fn result_views(v: Seq<Result<String, AppError>>) -> Seq<Result<Seq<char>, AppError>> {
    v.map_values(
        |r: Result<String, AppError>|
            match r {
                Ok(s) => Ok(s@),
                Err(e) => Err(e),
            },
    )
}

/// The reduce request over the map results: refused at the first failed
/// batch (its error) or blank summary (a provider error naming the batch).
pub fn reduce_request(results: Vec<Result<String, AppError>>, params: &ReportParams) -> (r: Result<CompletionRequest, AppError>)
    ensures
        match summaries_spec(result_views(results@)) {
            Ok(ss) => r matches Ok(q) && q@ == CompletionRequestV {
                system: report_system_text(params.language@),
                user: reduce_user_text(params.kind@, params.since@, params.repo_count as nat, ss),
                max_tokens: 4000,
            },
            Err((i, Some(e))) => r == Err::<CompletionRequest, AppError>(e),
            Err((i, None)) => r matches Err(AppError::AiProvider { status, message }) && status == 200
                && message@ == "map batch "@ + dec_string(i + 1) + " returned an empty summary"@,
        },
{
    let ghost orig = results@;
    let ghost all = result_views(results@);
    let n = results.len();
    // Reverse into a stack so that popping yields the batches in order.
    let mut src = results;
    let mut stack: Vec<Result<String, AppError>> = Vec::new();
    while src.len() > 0
        invariant
            n == orig.len(),
            src@.len() + stack@.len() == n,
            src@ == orig.take(src@.len() as int),
            forall|j: int| 0 <= j < stack@.len() ==> #[trigger] stack@[j] == orig[n - 1 - j],
        decreases src.len(),
    {
        let x = src.pop().unwrap();
        stack.push(x);
        assert(src@ =~= orig.take(src@.len() as int));
    }
    let mut summaries: Vec<String> = Vec::new();
    let mut i: usize = 0;
    assert(all.take(0) =~= Seq::<Result<Seq<char>, AppError>>::empty());
    assert(strs(summaries@) =~= Seq::<Seq<char>>::empty());
    while i < n
        invariant
            0 <= i <= n,
            n == orig.len(),
            orig == results@,
            all == result_views(orig),
            stack@.len() == n - i,
            forall|j: int| 0 <= j < stack@.len() ==> #[trigger] stack@[j] == orig[n - 1 - j],
            summaries_spec(all.take(i as int)) == Ok::<Seq<Seq<char>>, (nat, Option<AppError>)>(strs(summaries@)),
        decreases n - i,
    {
        let r = stack.pop().unwrap();
        proof {
            assert(r == orig[i as int]);
            assert(all.take(i + 1).drop_last() =~= all.take(i as int));
            assert(all.take(i + 1).last() == all[i as int]);
        }
        match r {
            Ok(s) => {
                let sc = to_chars(s.as_str());
                if trim_chars(sc.as_slice()).len() > 0 {
                    let ghost before = summaries@;
                    summaries.push(s);
                    assert(strs(summaries@) =~= strs(before).push(s@));
                } else {
                    proof {
                        assert(all[i as int] == Ok::<Seq<char>, AppError>(s@));
                        assert(summaries_spec(all.take(i + 1)) == Err::<Seq<Seq<char>>, (nat, Option<AppError>)>((i as nat, None)));
                        lemma_summaries_err_stays(all, i + 1);
                    }
                    let mut m = String::new();
                    push_str(&mut m, "map batch ");
                    push_u64(&mut m, i as u64 + 1);
                    push_str(&mut m, " returned an empty summary");
                    return Err(AppError::AiProvider { status: 200, message: m });
                }
            },
            Err(e) => {
                proof {
                    assert(all[i as int] == Err::<Seq<char>, AppError>(e));
                    assert(summaries_spec(all.take(i + 1)) == Err::<Seq<Seq<char>>, (nat, Option<AppError>)>((i as nat, Some(e))));
                    lemma_summaries_err_stays(all, i + 1);
                }
                return Err(e);
            },
        }
        i += 1;
    }
    assert(all.take(n as int) =~= all);
    let system = reduce_system(params.language.as_str());
    let user = reduce_user(params.kind.as_str(), params.since.as_str(), params.repo_count, summaries.as_slice());
    Ok(CompletionRequest { system, user, max_tokens: 4000 })
}

proof fn lemma_summaries_err_stays(all: Seq<Result<Seq<char>, AppError>>, i: int)
    requires
        0 <= i <= all.len(),
        summaries_spec(all.take(i)) is Err,
    ensures
        summaries_spec(all) == summaries_spec(all.take(i)),
    decreases all.len() - i,
{
    if i < all.len() {
        assert(all.take(i + 1).drop_last() =~= all.take(i));
        lemma_summaries_err_stays(all, i + 1);
    } else {
        assert(all.take(i) =~= all);
    }
}

} // verus!
verus! {

// =====================
// Previews
// =====================

/// One file of a commit-message preview.
pub open spec fn preview_item(f: crate::context::DiffFileCtxV) -> Seq<char> {
    if f.is_binary {
        f.path + " (binary)"@
    } else {
        f.path + " (+"@ + dec_string(f.added) + " -"@ + dec_string(f.removed) + ")"@
    }
}

/// What a commit message would send: the provider, the files with their
/// sampled counts, the characters, excluded files and truncation.
pub fn commit_preview(cfg: &AiConfig, ctx: &crate::context::DiffContext) -> (r: crate::ai_config::AiPreview)
    ensures
        r.kind@ == "commit_message"@,
        r.provider@ == label_spec(cfg@),
        strs(r.items@) == Seq::new(ctx@.files.len(), |i: int| preview_item(ctx@.files[i])),
        r.commits == 0,
        r.chars == ctx.total_chars as u32,
        r.excluded == ctx.excluded_files as u32,
        r.truncated == ctx.truncated,
        r.batches == 1,
{
    let ghost fs = ctx@.files;
    let mut items: Vec<String> = Vec::new();
    let mut i: usize = 0;
    while i < ctx.files.len()
        invariant
            0 <= i <= fs.len(),
            fs == ctx@.files,
            strs(items@) == Seq::new(i as nat, |k: int| preview_item(fs[k])),
        decreases ctx.files.len() - i,
    {
        let f = &ctx.files[i];
        assert(f@ == fs[i as int]);
        let mut t = String::new();
        push_str(&mut t, f.path.as_str());
        if f.is_binary {
            push_str(&mut t, " (binary)");
        } else {
            push_str(&mut t, " (+");
            push_u64(&mut t, f.added as u64);
            push_str(&mut t, " -");
            push_u64(&mut t, f.removed as u64);
            push_str(&mut t, ")");
        }
        let ghost before = items@;
        items.push(t);
        assert(strs(items@) =~= strs(before).push(t@));
        assert(strs(items@) =~= Seq::new((i + 1) as nat, |k: int| preview_item(fs[k])));
        i += 1;
    }
    crate::ai_config::AiPreview {
        kind: "commit_message".to_string(),
        provider: provider_label(cfg),
        items,
        commits: 0,
        chars: #[verifier::truncate] (ctx.total_chars as u32),
        excluded: #[verifier::truncate] (ctx.excluded_files as u32),
        truncated: ctx.truncated,
        batches: 1,
    }
}

/// How many commits carry a repository label.
pub open spec fn repo_count(cs: Seq<NumstatCommitV>, label: Seq<char>) -> nat
    decreases cs.len(),
{
    if cs.len() == 0 {
        0
    } else {
        repo_count(cs.drop_last(), label) + (if cs.last().repo == label {
            1nat
        } else {
            0nat
        })
    }
}

fn count_repo(commits: &[NumstatCommit], label: &str) -> (r: usize)
    ensures
        r == repo_count(seq_view(commits@), label@),
{
    let ghost cs = seq_view(commits@);
    let mut n: usize = 0;
    let mut i: usize = 0;
    while i < commits.len()
        invariant
            0 <= i <= commits@.len(),
            cs == seq_view(commits@),
            n == repo_count(cs.take(i as int), label@),
            n <= i,
        decreases commits.len() - i,
    {
        assert(cs.take(i + 1).drop_last() =~= cs.take(i as int));
        assert(cs.take(i + 1).last() == commits@[i as int]@);
        if eq_text(commits[i].repo.as_str(), label) {
            n += 1;
        }
        i += 1;
    }
    assert(cs.take(cs.len() as int) =~= cs);
    n
}

/// What a report would send: the provider, the commits per repository,
/// the commit and character counts, excluded files and the number of
/// batches.
pub fn report_preview(cfg: &AiConfig, labels: &[String], commits: &[NumstatCommit], filter: &PathFilter) -> (r: crate::ai_config::AiPreview)
    requires
        forall|i: int|
            0 <= i < commits@.len() ==> repo_count(seq_view(commits@), (#[trigger] commits@[i]).repo@) <= u32::MAX,
    ensures
        r.kind@ == "report"@,
        r.provider@ == label_spec(cfg@),
        strs(r.items@) == Seq::new(
            labels@.len(),
            |k: int| labels@[k]@ + ": "@ + dec_string(repo_count(seq_view(commits@), labels@[k]@)),
        ),
        r.commits == commits@.len() as u32,
        r.chars == batch_text(seq_view(commits@), filter@.regexes).len() as u32,
        r.excluded == (if crate::context::batch_excluded(seq_view(commits@), filter@.regexes) <= usize::MAX {
            crate::context::batch_excluded(seq_view(commits@), filter@.regexes)
        } else {
            usize::MAX as nat
        }) as u32,
        r.truncated == false,
        r.batches == (if commits@.len() > MAP_REDUCE_COMMIT_THRESHOLD || byte_len(
            batch_text(seq_view(commits@), filter@.regexes),
        ) > MAP_REDUCE_CHARS_THRESHOLD {
            batches_of(listing_sizes(seq_view(commits@), filter@.regexes), BATCH_MAX_COMMITS as nat, BATCH_MAX_CHARS as nat).len() as u32
        } else {
            1u32
        }),
{
    let (text, excluded) = render_report_batch(commits, filter);
    let batches: u32 = if needs_map_reduce(commits, filter) {
        let b = batch_for_map_reduce(commits, filter, BATCH_MAX_COMMITS, BATCH_MAX_CHARS);
        proof {
            assert(index_batches(b@).len() == b@.len());
        }
        #[verifier::truncate] (b.len() as u32)
    } else {
        1
    };
    let ghost cs = seq_view(commits@);
    let mut items: Vec<String> = Vec::new();
    let mut k: usize = 0;
    while k < labels.len()
        invariant
            0 <= k <= labels@.len(),
            cs == seq_view(commits@),
            strs(items@) == Seq::new(
                k as nat,
                |j: int| labels@[j]@ + ": "@ + dec_string(repo_count(cs, labels@[j]@)),
            ),
        decreases labels.len() - k,
    {
        let n = count_repo(commits, labels[k].as_str());
        let mut t = String::new();
        push_str(&mut t, labels[k].as_str());
        push_str(&mut t, ": ");
        push_u64(&mut t, n as u64);
        let ghost before = items@;
        items.push(t);
        assert(strs(items@) =~= strs(before).push(t@));
        assert(strs(items@) =~= Seq::new(
            (k + 1) as nat,
            |j: int| labels@[j]@ + ": "@ + dec_string(repo_count(cs, labels@[j]@)),
        ));
        k += 1;
    }
    let chars = to_chars(text.as_str()).len();
    crate::ai_config::AiPreview {
        kind: "report".to_string(),
        provider: provider_label(cfg),
        items,
        commits: #[verifier::truncate] (commits.len() as u32),
        chars: #[verifier::truncate] (chars as u32),
        excluded: #[verifier::truncate] (excluded as u32),
        truncated: false,
        batches,
    }
}

/// The author filter of a report request: trimmed, none when blank.
pub fn author_filter(author: &Option<String>) -> (r: Option<String>)
    ensures
        match opt_str(*author) {
            Some(a) => if trim(a).len() > 0 {
                opt_str(r) == Some(trim(a))
            } else {
                r is None
            },
            None => r is None,
        },
{
    match author {
        Some(a) => {
            let c = to_chars(a.as_str());
            let t = trim_chars(c.as_slice());
            if t.len() > 0 {
                Some(string_of(t.as_slice()))
            } else {
                None
            }
        },
        None => None,
    }
}

} // verus!
verus! {

// =====================
// Report data
// =====================

/// `a < b` in the order of `String`: lexicographic by character (UTF-8
/// keeps code point order, so this is also the byte order).
pub open spec fn text_lt(a: Seq<char>, b: Seq<char>) -> bool
    decreases a.len(),
{
    if a.len() == 0 {
        b.len() > 0
    } else if b.len() == 0 {
        false
    } else if a[0] != b[0] {
        (a[0] as u32) < (b[0] as u32)
    } else {
        text_lt(a.drop_first(), b.drop_first())
    }
}

pub(crate) fn text_less(a: &[char], b: &[char]) -> (r: bool)
    ensures
        r == text_lt(a@, b@),
{
    let mut i: usize = 0;
    assert(a@.skip(0) =~= a@);
    assert(b@.skip(0) =~= b@);
    while i < a.len() && i < b.len() && a[i] == b[i]
        invariant
            0 <= i <= a@.len(),
            i <= b@.len(),
            text_lt(a@, b@) == text_lt(a@.skip(i as int), b@.skip(i as int)),
        decreases a.len() - i,
    {
        assert(a@.skip(i as int).drop_first() =~= a@.skip(i + 1));
        assert(b@.skip(i as int).drop_first() =~= b@.skip(i + 1));
        i += 1;
    }
    if i == a.len() {
        i < b.len()
    } else if i == b.len() {
        false
    } else {
        (a[i] as u32) < (b[i] as u32)
    }
}

/// Inserts a commit before the first one with an older date (a stable
/// sort, newest first).
pub open spec fn insert_by_date(o: Seq<NumstatCommitV>, c: NumstatCommitV) -> Seq<NumstatCommitV>
    decreases o.len(),
{
    if o.len() == 0 {
        seq![c]
    } else if text_lt(o[0].date, c.date) {
        seq![c] + o
    } else {
        seq![o[0]] + insert_by_date(o.drop_first(), c)
    }
}

/// Commits newest first by date; equal dates keep their order.
pub open spec fn by_date_desc(cs: Seq<NumstatCommitV>) -> Seq<NumstatCommitV>
    decreases cs.len(),
{
    if cs.len() == 0 {
        Seq::<NumstatCommitV>::empty()
    } else {
        insert_by_date(by_date_desc(cs.drop_last()), cs.last())
    }
}

/// The commits of the repositories, each labelled with its repository,
/// in repository order.
pub open spec fn labelled(per_repo: Seq<(Seq<char>, Seq<NumstatCommitV>)>) -> Seq<NumstatCommitV>
    decreases per_repo.len(),
{
    if per_repo.len() == 0 {
        Seq::<NumstatCommitV>::empty()
    } else {
        labelled(per_repo.drop_last()) + per_repo.last().1.map_values(
            |c: NumstatCommitV| NumstatCommitV { repo: per_repo.last().0, ..c },
        )
    }
}

pub open spec fn repo_views(v: Seq<(String, Vec<NumstatCommit>)>) -> Seq<(Seq<char>, Seq<NumstatCommitV>)> {
    v.map_values(|p: (String, Vec<NumstatCommit>)| (p.0@, seq_view(p.1@)))
}

proof fn lemma_insert_by_date_step(o: Seq<NumstatCommitV>, c: NumstatCommitV, q: int)
    requires
        0 <= q < o.len(),
        !text_lt(o[q].date, c.date),
    ensures
        o.take(q) + insert_by_date(o.skip(q), c) == o.take(q + 1) + insert_by_date(o.skip(q + 1), c),
{
    assert(o.skip(q).drop_first() =~= o.skip(q + 1));
    assert(o.skip(q)[0] == o[q]);
    assert(insert_by_date(o.skip(q), c) == seq![o[q]] + insert_by_date(o.skip(q + 1), c));
    assert(o.take(q) + (seq![o[q]] + insert_by_date(o.skip(q + 1), c)) =~= o.take(q + 1) + insert_by_date(
        o.skip(q + 1),
        c,
    ));
}

/// Gathers the commits of several repositories for a report: each is
/// labelled with its repository, then all are ordered newest first (a
/// stable sort, so batches group commits close in time).
pub fn merge_report_commits(per_repo: Vec<(String, Vec<NumstatCommit>)>) -> (r: Vec<NumstatCommit>)
    ensures
        seq_view(r@) == by_date_desc(labelled(repo_views(per_repo@))),
{
    let ghost rv = repo_views(per_repo@);
    let mut all: Vec<NumstatCommit> = Vec::new();
    let mut k: usize = 0;
    while k < per_repo.len()
        invariant
            0 <= k <= per_repo@.len(),
            rv == repo_views(per_repo@),
            seq_view(all@) == labelled(rv.take(k as int)),
        decreases per_repo.len() - k,
    {
        let label = &per_repo[k].0;
        let commits = &per_repo[k].1;
        let ghost base = seq_view(all@);
        let ghost part = seq_view(commits@).map_values(|c: NumstatCommitV| NumstatCommitV { repo: label@, ..c });
        let mut j: usize = 0;
        while j < commits.len()
            invariant
                0 <= j <= commits@.len(),
                seq_view(all@) == base + part.take(j as int),
                part == seq_view(commits@).map_values(|c: NumstatCommitV| NumstatCommitV { repo: label@, ..c }),
            decreases commits.len() - j,
        {
            let c = &commits[j];
            let labelled_commit = NumstatCommit {
                hash: c.hash.clone(),
                short_hash: c.short_hash.clone(),
                author: c.author.clone(),
                email: c.email.clone(),
                date: c.date.clone(),
                subject: c.subject.clone(),
                repo: label.clone(),
                files: clone_numstat_files(&c.files),
            };
            let ghost before = all@;
            all.push(labelled_commit);
            proof {
                crate::model::lemma_seq_view_push(before, labelled_commit);
                assert(part.take(j + 1) =~= part.take(j as int).push(part[j as int]));
                assert(labelled_commit@ == part[j as int]);
                assert(seq_view(all@) =~= base + part.take(j + 1));
            }
            j += 1;
        }
        proof {
            assert(part.take(commits@.len() as int) =~= part);
            assert(rv.take(k + 1).drop_last() =~= rv.take(k as int));
            assert(rv.take(k + 1).last() == (label@, seq_view(commits@)));
        }
        k += 1;
    }
    assert(rv.take(per_repo@.len() as int) =~= rv);
    // Stable insertion, newest first.
    let ghost lv = seq_view(all@);
    let mut sorted: Vec<NumstatCommit> = Vec::new();
    let mut src = all;
    let mut rev: Vec<NumstatCommit> = Vec::new();
    let n = src.len();
    while src.len() > 0
        invariant
            n == lv.len(),
            src@.len() + rev@.len() == n,
            seq_view(src@) == lv.take(src@.len() as int),
            forall|t: int| 0 <= t < rev@.len() ==> #[trigger] rev@[t]@ == lv[n - 1 - t],
        decreases src.len(),
    {
        let ghost before = src@;
        let x = src.pop().unwrap();
        assert(x == before[before.len() - 1]);
        assert(seq_view(before)[before.len() - 1] == x@);
        assert(x@ == lv[before.len() - 1]);
        let ghost rb = rev@;
        rev.push(x);
        assert(forall|t: int| 0 <= t < rb.len() ==> rev@[t] == rb[t]);
        assert(seq_view(src@) =~= lv.take(src@.len() as int));
    }
    let mut i: usize = 0;
    assert(lv.take(0) =~= Seq::<NumstatCommitV>::empty());
    while i < n
        invariant
            0 <= i <= n,
            n == lv.len(),
            rev@.len() == n - i,
            forall|t: int| 0 <= t < rev@.len() ==> #[trigger] rev@[t]@ == lv[n - 1 - t],
            seq_view(sorted@) == by_date_desc(lv.take(i as int)),
        decreases n - i,
    {
        let c = rev.pop().unwrap();
        assert(c@ == lv[i as int]);
        let ghost o = seq_view(sorted@);
        let cd = to_chars(c.date.as_str());
        let mut q: usize = 0;
        assert(o.skip(0) =~= o);
        assert(o.take(0) + insert_by_date(o.skip(0), c@) =~= insert_by_date(o, c@));
        while q < sorted.len() && !text_less(to_chars(sorted[q].date.as_str()).as_slice(), cd.as_slice())
            invariant
                0 <= q <= sorted@.len(),
                o == seq_view(sorted@),
                cd@ == c@.date,
                o.take(q as int) + insert_by_date(o.skip(q as int), c@) == insert_by_date(o, c@),
            decreases sorted.len() - q,
        {
            proof {
                lemma_insert_by_date_step(o, c@, q as int);
            }
            q += 1;
        }
        proof {
            if q < sorted@.len() {
                assert(o.skip(q as int)[0] == o[q as int]);
                assert(insert_by_date(o.skip(q as int), c@) == seq![c@] + o.skip(q as int));
            } else {
                assert(o.skip(q as int) =~= Seq::<NumstatCommitV>::empty());
            }
            assert(lv.take(i + 1).drop_last() =~= lv.take(i as int));
            assert(lv.take(i + 1).last() == c@);
        }
        let ghost cv = c@;
        sorted.insert(q, c);
        proof {
            assert(seq_view(sorted@) =~= o.take(q as int) + insert_by_date(o.skip(q as int), cv));
        }
        i += 1;
    }
    assert(lv.take(n as int) =~= lv);
    sorted
}

fn clone_numstat_files(files: &Vec<crate::model::NumstatFile>) -> (r: Vec<crate::model::NumstatFile>)
    ensures
        seq_view(r@) == seq_view(files@),
{
    let mut r: Vec<crate::model::NumstatFile> = Vec::new();
    let mut i: usize = 0;
    while i < files.len()
        invariant
            0 <= i <= files@.len(),
            seq_view(r@) == seq_view(files@).take(i as int),
        decreases files.len() - i,
    {
        let f = &files[i];
        let c = crate::model::NumstatFile {
            path: f.path.clone(),
            orig_path: match &f.orig_path {
                Some(p) => Some(p.clone()),
                None => None,
            },
            additions: f.additions,
            deletions: f.deletions,
            binary: f.binary,
        };
        let ghost before = r@;
        r.push(c);
        proof {
            crate::model::lemma_seq_view_push(before, c);
            assert(seq_view(files@).take(i + 1) =~= seq_view(files@).take(i as int).push(f@));
        }
        i += 1;
    }
    assert(seq_view(files@).take(files@.len() as int) =~= seq_view(files@));
    r
}

// =====================
// Report request
// =====================

/// A year as chrono shows a date's: four digits within 0..=9999, else
/// signed and at least four digits.
pub open spec fn iso_year(y: i32) -> Seq<char> {
    if 0 <= y <= 9999 {
        zero_pad(y as nat, 4)
    } else if y > 9999 {
        seq!['+'] + zero_pad(y as nat, 4)
    } else {
        seq!['-'] + zero_pad((-y) as nat, 4)
    }
}

/// A date as chrono's `NaiveDate` shows it: `YYYY-MM-DD`.
pub open spec fn iso_date(y: i32, m: u32, d: u32) -> Seq<char> {
    iso_year(y) + seq!['-'] + zero_pad(m as nat, 2) + seq!['-'] + zero_pad(d as nat, 2)
}

/// The day a report starts: today for a daily report, this week's Monday
/// for a weekly one.
pub open spec fn report_start(kind: Seq<char>, today: LocalTime) -> int {
    if kind == "weekly"@ {
        today.date.days - today.weekday
    } else {
        today.date.days as int
    }
}

fn iso_date_text(y: i32, m: u32, d: u32) -> (r: String)
    ensures
        r@ == iso_date(y, m, d),
{
    let mut s = String::new();
    if 0 <= y && y <= 9999 {
        push_padded(&mut s, y as u64, 4);
    } else if y > 9999 {
        push_char(&mut s, '+');
        push_padded(&mut s, y as u64, 4);
    } else {
        push_char(&mut s, '-');
        let a: i64 = -(y as i64);
        push_padded(&mut s, a as u64, 4);
    }
    push_char(&mut s, '-');
    push_padded(&mut s, m as u64, 2);
    push_char(&mut s, '-');
    push_padded(&mut s, d as u64, 2);
    assert(s@ =~= iso_date(y, m, d));
    s
}

/// The `--since` of a report, local midnight of its first day
/// (`YYYY-MM-DDT00:00:00`), given today's local time; `None` where chrono
/// has no date for the weekly report's Monday.
pub fn report_range(kind: &str, today: &LocalTime) -> (r: Option<String>)
    ensures
        kind@ != "weekly"@ ==> (r matches Some(s) && s@ == iso_date(today.date.year, today.date.month, today.date.day)
            + "T00:00:00"@),
        kind@ == "weekly"@ ==> match day_date(report_start(kind@, *today)) {
            Some(d) => r matches Some(s) && s@ == iso_date(d.0, d.1, d.2) + "T00:00:00"@,
            None => r is None,
        },
{
    let kc = to_chars(kind);
    let weekly = to_chars("weekly");
    let (y, m, d) = if eq_chars(kc.as_slice(), weekly.as_slice()) {
        let n: i64 = today.date.days as i64 - today.weekday as i64;
        if n < i32::MIN as i64 {
            return None;
        }
        match days_date(n as i32) {
            Some(c) => (c.year, c.month, c.day),
            None => {
                return None;
            },
        }
    } else {
        (today.date.year, today.date.month, today.date.day)
    };
    let mut s = iso_date_text(y, m, d);
    push_str(&mut s, "T00:00:00");
    Some(s)
}

/// The report prompt's note on whose commits it covers, for the author
/// filter (already trimmed; none means everyone).
pub fn author_note(author: &Option<String>) -> (r: String)
    ensures
        match opt_str(*author) {
            Some(a) => r@ == "Only commits authored by <"@ + a + "> are included."@,
            None => r@ == "Commits from all authors are included."@,
        },
{
    match author {
        Some(a) => {
            let mut s = String::from_str("Only commits authored by <");
            push_str(&mut s, a.as_str());
            push_str(&mut s, "> are included.");
            s
        },
        None => String::from_str("Commits from all authors are included."),
    }
}

/// A report needs at least one repository.
pub fn require_sources(count: usize) -> (r: Result<(), AppError>)
    ensures
        count > 0 <==> r is Ok,
        r matches Err(e) ==> e matches AppError::Parse { message } && message@ == "no repositories selected"@,
{
    if count == 0 {
        Err(AppError::parse(String::from_str("no repositories selected")))
    } else {
        Ok(())
    }
}

} // verus!
