//! AI assistant settings: the provider matrix, the persisted configuration
//! with its privacy-first defaults, the view the interface gets (the key
//! only as a yes/no), and the checks a generation request passes first.

use vstd::prelude::*;
use crate::text::{strs, opt_str, to_chars, eq_chars, push_str};
use crate::error::AppError;

verus! {

/// Kinds of AI provider.
#[derive(Debug, Clone, Copy, PartialEq, Eq, Structural)]
pub enum ProviderKind {
    /// Local and offline: nothing leaves the machine.
    Ollama,
    /// OpenAI and every endpoint speaking its API.
    OpenAiCompatible,
    /// The Anthropic Messages API.
    Anthropic,
    /// A full endpoint URL speaking the OpenAI wire format.
    Custom,
}

/// The persisted, non-secret AI configuration.
#[derive(Debug, Clone, PartialEq, Eq)]
pub struct AiConfig {
    /// Off until the user opts in.
    pub enabled: bool,
    pub provider: ProviderKind,
    /// API root (for `Custom`, the full endpoint URL).
    pub base_url: String,
    pub model: String,
    /// Request timeout in seconds.
    pub timeout_secs: u32,
    /// Commit messages in Conventional Commits style.
    pub conventional: bool,
    /// Auth header style of a custom provider: `bearer`, `x_api_key` or `none`.
    pub custom_auth: String,
    /// Glob rules of paths never sent.
    pub exclude_patterns: Vec<String>,
    /// Repositories never sent.
    pub excluded_repos: Vec<String>,
}

pub struct AiConfigV {
    pub enabled: bool,
    pub provider: ProviderKind,
    pub base_url: Seq<char>,
    pub model: Seq<char>,
    pub timeout_secs: u32,
    pub conventional: bool,
    pub custom_auth: Seq<char>,
    pub exclude_patterns: Seq<Seq<char>>,
    pub excluded_repos: Seq<Seq<char>>,
}

impl View for AiConfig {
    type V = AiConfigV;

    open spec fn view(&self) -> AiConfigV {
        AiConfigV {
            enabled: self.enabled,
            provider: self.provider,
            base_url: self.base_url@,
            model: self.model@,
            timeout_secs: self.timeout_secs,
            conventional: self.conventional,
            custom_auth: self.custom_auth@,
            exclude_patterns: strs(self.exclude_patterns@),
            excluded_repos: strs(self.excluded_repos@),
        }
    }
}

/// The built-in privacy rules: secrets, keys and credentials files.
pub open spec fn default_patterns() -> Seq<Seq<char>> {
    seq![
        "*.env"@,
        "*.env.*"@,
        "*.pem"@,
        "*.key"@,
        "*.pfx"@,
        "*.p12"@,
        "*.jks"@,
        "*.keystore"@,
        "id_rsa*"@,
        "id_ed25519*"@,
        "id_ecdsa*"@,
        ".npmrc"@,
        ".netrc"@,
        "*credentials*"@,
        "*secret*"@,
    ]
}

/// The built-in exclusion rules (the user may edit them).
pub fn default_exclude_patterns() -> (r: Vec<String>)
    ensures
        strs(r@) == default_patterns(),
{
    let mut v: Vec<String> = Vec::new();
    v.push("*.env".to_string());
    v.push("*.env.*".to_string());
    v.push("*.pem".to_string());
    v.push("*.key".to_string());
    v.push("*.pfx".to_string());
    v.push("*.p12".to_string());
    v.push("*.jks".to_string());
    v.push("*.keystore".to_string());
    v.push("id_rsa*".to_string());
    v.push("id_ed25519*".to_string());
    v.push("id_ecdsa*".to_string());
    v.push(".npmrc".to_string());
    v.push(".netrc".to_string());
    v.push("*credentials*".to_string());
    v.push("*secret*".to_string());
    assert(strs(v@) =~= default_patterns());
    v
}

impl Default for AiConfig {
    /// Disabled, local Ollama, Conventional Commits, the built-in
    /// exclusion rules.
    fn default() -> (r: Self)
        ensures
            !r@.enabled,
            r@.provider == ProviderKind::Ollama,
            r@.base_url == "http://localhost:11434/v1"@,
            r@.model.len() == 0,
            r@.timeout_secs == 60,
            r@.conventional,
            r@.custom_auth == "bearer"@,
            r@.exclude_patterns == default_patterns(),
            r@.excluded_repos.len() == 0,
    {
        let excluded_repos: Vec<String> = Vec::new();
        let r = AiConfig {
            enabled: false,
            provider: ProviderKind::Ollama,
            base_url: "http://localhost:11434/v1".to_string(),
            model: String::new(),
            timeout_secs: 60,
            conventional: true,
            custom_auth: "bearer".to_string(),
            exclude_patterns: default_exclude_patterns(),
            excluded_repos,
        };
        assert(strs(r.excluded_repos@) =~= Seq::<Seq<char>>::empty());
        r
    }
}

/// The configuration as the interface sees it: no key, only whether one
/// is stored.
#[derive(Debug, Clone, PartialEq)]
pub struct AiConfigDto {
    pub enabled: bool,
    pub provider: ProviderKind,
    pub base_url: String,
    pub model: String,
    pub timeout_secs: u32,
    pub conventional: bool,
    pub custom_auth: String,
    pub exclude_patterns: Vec<String>,
    pub excluded_repos: Vec<String>,
    pub has_key: bool,
}

impl AiConfigDto {
    /// The view of a configuration, with the key's presence.
    pub fn from(cfg: AiConfig, has_key: bool) -> (r: Self)
        ensures
            r.enabled == cfg.enabled,
            r.provider == cfg.provider,
            r.base_url == cfg.base_url,
            r.model == cfg.model,
            r.timeout_secs == cfg.timeout_secs,
            r.conventional == cfg.conventional,
            r.custom_auth == cfg.custom_auth,
            r.exclude_patterns == cfg.exclude_patterns,
            r.excluded_repos == cfg.excluded_repos,
            r.has_key == has_key,
    {
        AiConfigDto {
            enabled: cfg.enabled,
            provider: cfg.provider,
            base_url: cfg.base_url,
            model: cfg.model,
            timeout_secs: cfg.timeout_secs,
            conventional: cfg.conventional,
            custom_auth: cfg.custom_auth,
            exclude_patterns: cfg.exclude_patterns,
            excluded_repos: cfg.excluded_repos,
            has_key,
        }
    }

    /// The configuration the interface sent back (the key flag dropped).
    pub fn into_config(self) -> (r: AiConfig)
        ensures
            r.enabled == self.enabled,
            r.provider == self.provider,
            r.base_url == self.base_url,
            r.model == self.model,
            r.timeout_secs == self.timeout_secs,
            r.conventional == self.conventional,
            r.custom_auth == self.custom_auth,
            r.exclude_patterns == self.exclude_patterns,
            r.excluded_repos == self.excluded_repos,
    {
        AiConfig {
            enabled: self.enabled,
            provider: self.provider,
            base_url: self.base_url,
            model: self.model,
            timeout_secs: self.timeout_secs,
            conventional: self.conventional,
            custom_auth: self.custom_auth,
            exclude_patterns: self.exclude_patterns,
            excluded_repos: self.excluded_repos,
        }
    }
}

/// Whether what the secret store answered is a stored, non-empty key (a
/// store error counts as none).
pub fn key_present(got: &Result<Option<String>, String>) -> (r: bool)
    ensures
        r == (got matches Ok(Some(k)) && k@.len() > 0),
{
    match got {
        Ok(Some(k)) => !k.as_str().is_empty(),
        _ => false,
    }
}

/// A generation request goes through only while the assistant is enabled.
pub fn guard_enabled(cfg: &AiConfig) -> (r: Result<(), AppError>)
    ensures
        r is Ok <==> cfg.enabled,
        r is Err ==> r == Err::<(), AppError>(AppError::AiDisabled),
{
    if cfg.enabled {
        Ok(())
    } else {
        Err(AppError::AiDisabled)
    }
}

/// A report kind: `daily` or `weekly`; anything else is refused.
pub fn validate_kind(kind: &str) -> (r: Result<String, AppError>)
    ensures
        kind@ == "daily"@ || kind@ == "weekly"@ ==> (r matches Ok(k) && k@ == kind@),
        !(kind@ == "daily"@ || kind@ == "weekly"@) ==> (r matches Err(AppError::Parse { message })
            && message@ == "unknown report kind: "@ + kind@),
{
    let kc = to_chars(kind);
    let daily = to_chars("daily");
    let weekly = to_chars("weekly");
    if eq_chars(kc.as_slice(), daily.as_slice()) || eq_chars(kc.as_slice(), weekly.as_slice()) {
        Ok(kind.to_string())
    } else {
        let mut m = String::new();
        push_str(&mut m, "unknown report kind: ");
        push_str(&mut m, kind);
        Err(AppError::parse(m))
    }
}

/// A report request from the interface.
#[derive(Debug, Clone)]
pub struct AiReportRequest {
    /// `daily` or `weekly`.
    pub kind: String,
    /// Author email filter; none means everyone.
    pub author: Option<String>,
    /// The repositories to aggregate.
    pub repo_ids: Vec<u32>,
    /// Output language (`zh-CN`, `en`).
    pub language: String,
}

/// What is about to be sent, shown before sending.
#[derive(Debug, Clone)]
pub struct AiPreview {
    /// `commit_message` or `report`.
    pub kind: String,
    pub provider: String,
    /// Files (commit message) or commits per repository (report).
    pub items: Vec<String>,
    pub commits: u32,
    pub chars: u32,
    pub excluded: u32,
    pub truncated: bool,
    /// Map-reduce batches (1 for a single request).
    pub batches: u32,
}

/// An event of a generation task.
#[derive(Debug, Clone)]
pub struct AiEvent {
    pub task_id: u32,
    /// `status`, `delta`, `done`, `cancelled` or `failed`.
    pub phase: String,
    pub text: Option<String>,
    pub message: Option<String>,
    pub error: Option<AppError>,
}

/// The closing event of a generation task: `done` with the text,
/// `cancelled` with a note when the user cancelled, `failed` with the
/// error otherwise.
pub fn finish_event(task_id: u32, result: Result<String, AppError>, what: &str) -> (r: AiEvent)
    ensures
        r.task_id == task_id,
        match result {
            Ok(text) => r.phase@ == "done"@ && opt_str(r.text) == Some(text@) && r.message is None
                && r.error is None,
            Err(AppError::OperationCancelled) => r.phase@ == "cancelled"@ && r.text is None
                && opt_str(r.message) == Some(what@ + " cancelled"@) && r.error is None,
            Err(e) => r.phase@ == "failed"@ && r.text is None && r.message is None && r.error
                == Some(e),
        },
{
    match result {
        Ok(text) => AiEvent { task_id, phase: "done".to_string(), text: Some(text), message: None, error: None },
        Err(AppError::OperationCancelled) => {
            let mut m = String::new();
            push_str(&mut m, what);
            push_str(&mut m, " cancelled");
            AiEvent { task_id, phase: "cancelled".to_string(), text: None, message: Some(m), error: None }
        },
        Err(e) => AiEvent { task_id, phase: "failed".to_string(), text: None, message: None, error: Some(e) },
    }
}

// =====================
// Streamed text, throttled
// =====================

/// A chunk is sent once this many characters are buffered...
pub const DELTA_CHARS: usize = 24;
/// ...or this many milliseconds passed since the last chunk.
pub const DELTA_MILLIS: u64 = 120;

/// The text a generation streams, buffered so the interface gets a chunk
/// at most every few characters or milliseconds.
pub struct DeltaThrottle {
    buf: String,
}

impl View for DeltaThrottle {
    type V = Seq<char>;

    closed spec fn view(&self) -> Seq<char> {
        self.buf@
    }
}

/// Whether a push that leaves `buffered` buffered sends it (never an
/// empty chunk).
pub open spec fn sends(buffered: Seq<char>, elapsed_ms: u64) -> bool {
    buffered.len() > 0 && (buffered.len() >= DELTA_CHARS || elapsed_ms >= DELTA_MILLIS)
}

impl DeltaThrottle {
    /// Nothing buffered.
    pub fn new() -> (r: Self)
        ensures
            r@.len() == 0,
    {
        DeltaThrottle { buf: String::new() }
    }

    /// Buffers `delta`; when enough characters are buffered or enough time
    /// passed since the last chunk (`elapsed_ms`), hands back the buffer as
    /// the chunk to send and starts over.
    pub fn push(&mut self, delta: &str, elapsed_ms: u64) -> (r: Option<String>)
        ensures
            sends(old(self)@ + delta@, elapsed_ms) ==> (r matches Some(c) && c@ == old(self)@ + delta@
                && final(self)@.len() == 0),
            !sends(old(self)@ + delta@, elapsed_ms) ==> r is None && final(self)@ == old(self)@ + delta@,
    {
        push_str(&mut self.buf, delta);
        let n = to_chars(self.buf.as_str()).len();
        if n >= DELTA_CHARS || elapsed_ms >= DELTA_MILLIS {
            self.flush()
        } else {
            None
        }
    }

    /// Hands back what is buffered, if anything.
    pub fn flush(&mut self) -> (r: Option<String>)
        ensures
            old(self)@.len() > 0 ==> (r matches Some(c) && c@ == old(self)@),
            old(self)@.len() == 0 ==> r is None,
            final(self)@.len() == 0,
    {
        if self.buf.as_str().is_empty() {
            return None;
        }
        let mut chunk = String::new();
        std::mem::swap(&mut chunk, &mut self.buf);
        Some(chunk)
    }
}

/// The texts of a stream, in order, concatenated.
pub open spec fn concat(ts: Seq<Seq<char>>) -> Seq<char>
    decreases ts.len(),
{
    if ts.len() == 0 {
        Seq::<char>::empty()
    } else {
        concat(ts.drop_last()) + ts.last()
    }
}

/// The chunks sent while pushing `deltas` (each with the time since the
/// last chunk) into a buffer holding `buf`, and what stays buffered.
pub open spec fn throttle_run(buf: Seq<char>, deltas: Seq<(Seq<char>, u64)>) -> (Seq<Seq<char>>, Seq<char>)
    decreases deltas.len(),
{
    if deltas.len() == 0 {
        (Seq::<Seq<char>>::empty(), buf)
    } else {
        let (sent, rest) = throttle_run(buf, deltas.drop_last());
        let d = deltas.last();
        if sends(rest + d.0, d.1) {
            (sent.push(rest + d.0), Seq::<char>::empty())
        } else {
            (sent, rest + d.0)
        }
    }
}

/// Throttling loses and reorders nothing: the chunks sent, followed by
/// what stays buffered, are the buffered text followed by every delta.
pub proof fn lemma_throttle_keeps_text(buf: Seq<char>, deltas: Seq<(Seq<char>, u64)>)
    ensures
        concat(throttle_run(buf, deltas).0) + throttle_run(buf, deltas).1 == buf + concat(
            deltas.map_values(|d: (Seq<char>, u64)| d.0),
        ),
    decreases deltas.len(),
{
    if deltas.len() > 0 {
        lemma_throttle_keeps_text(buf, deltas.drop_last());
        let texts = deltas.map_values(|d: (Seq<char>, u64)| d.0);
        assert(texts.drop_last() =~= deltas.drop_last().map_values(|d: (Seq<char>, u64)| d.0));
        let (sent, rest) = throttle_run(buf, deltas.drop_last());
        let d = deltas.last();
        if sends(rest + d.0, d.1) {
            assert(sent.push(rest + d.0).drop_last() =~= sent);
            assert(concat(sent.push(rest + d.0)) + Seq::<char>::empty() =~= concat(sent) + rest + d.0);
        } else {
            assert(concat(sent) + (rest + d.0) =~= concat(sent) + rest + d.0);
        }
        assert(buf + concat(texts) =~= buf + concat(texts.drop_last()) + texts.last());
    }
}

/// The event that carries one streamed chunk.
pub fn delta_event(task_id: u32, chunk: String) -> (r: AiEvent)
    ensures
        r.task_id == task_id && r.phase@ == "delta"@ && opt_str(r.text) == Some(chunk@) && r.message is None
            && r.error is None,
{
    AiEvent { task_id, phase: "delta".to_string(), text: Some(chunk), message: None, error: None }
}

} // verus!
