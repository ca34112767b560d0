//! Checks and events around cloning and the other application commands:
//! repository URL validation, the clone request and its progress events,
//! the network settings, and the frontend log and git path inputs.

use vstd::prelude::*;
use crate::text::{starts_with, contains, trim, is_ws, to_chars, has_prefix, contains_seq, trim_chars, is_whitespace, push_str, push_char, string_of, string_of_range, opt_str};
use crate::error::{AppError, error_message};
use crate::model::CloneOptions;
use crate::patch::{str_debug, debug_quoted};
use crate::progress::{clone_progress, parse_clone_progress};

verus! {

/// Whether `s` holds the character `c`.
fn has_char(s: &[char], c: char) -> (r: bool)
    ensures
        r == s@.contains(c),
{
    let mut i: usize = 0;
    while i < s.len()
        invariant
            0 <= i <= s@.len(),
            forall|j: int| 0 <= j < i ==> s@[j] != c,
        decreases s.len() - i,
    {
        if s[i] == c {
            assert(s@[i as int] == c);
            return true;
        }
        i += 1;
    }
    false
}

fn starts_with_str(s: &[char], p: &str) -> (r: bool)
    ensures
        r == starts_with(s@, p@),
{
    let pc = to_chars(p);
    has_prefix(s, pc.as_slice())
}

/// The URL schemes git clones from.
pub open spec fn has_scheme(u: Seq<char>) -> bool {
    starts_with(u, "https://"@) || starts_with(u, "http://"@) || starts_with(u, "ssh://"@) || starts_with(
        u,
        "git://"@,
    ) || starts_with(u, "file://"@)
}

/// The shape of a repository location: a URL with a known scheme, the
/// scp-like `user@host:path`, or a local path (never an option-like
/// `-...`), and no whitespace anywhere.
pub open spec fn url_ok(u: Seq<char>) -> bool {
    &&& (has_scheme(u) || (u.contains('@') && u.contains(':') && !contains(u, "://"@) && !starts_with(
        u,
        "-"@,
    ) && !starts_with(u, "/"@)) || ((u.contains('/') || u.contains('\\') || u.contains(':'))
        && !starts_with(u, "-"@)))
    &&& !(exists|i: int| 0 <= i < u.len() && #[trigger] is_ws(u[i]))
}

/// Accepts a repository URL or path that git can clone, refusing
/// anything else (option injection among it).
pub fn validate_url(url: &str) -> (r: Result<(), AppError>)
    ensures
        r is Ok <==> url_ok(url@),
        r is Err ==> (r matches Err(AppError::Parse { message }) && message@ == "invalid repository url: "@
            + str_debug(url@)),
{
    let u = to_chars(url);
    let s = u.as_slice();
    let scheme = starts_with_str(s, "https://") || starts_with_str(s, "http://") || starts_with_str(
        s,
        "ssh://",
    ) || starts_with_str(s, "git://") || starts_with_str(s, "file://");
    let sep = to_chars("://");
    let scp = has_char(s, '@') && has_char(s, ':') && !contains_seq(s, sep.as_slice()) && !starts_with_str(
        s,
        "-",
    ) && !starts_with_str(s, "/");
    let local = (has_char(s, '/') || has_char(s, '\\') || has_char(s, ':')) && !starts_with_str(s, "-");
    let ok = scheme || scp || local;
    let mut ws = false;
    let mut i: usize = 0;
    while i < s.len()
        invariant
            0 <= i <= s@.len(),
            s@ == url@,
            ws == exists|j: int| 0 <= j < i && #[trigger] is_ws(s@[j]),
        decreases s.len() - i,
    {
        if is_whitespace(s[i]) {
            ws = true;
        }
        i += 1;
    }
    if ok && !ws {
        Ok(())
    } else {
        let mut m = String::new();
        push_str(&mut m, "invalid repository url: ");
        let q = debug_quoted(url);
        push_str(&mut m, q.as_str());
        Err(AppError::parse(m))
    }
}

/// A clone request from the interface.
#[derive(Debug, Clone)]
pub struct CloneRequest {
    pub url: String,
    pub dest: String,
    pub depth: Option<u32>,
    pub single_branch: bool,
    pub recurse_submodules: bool,
}

/// A progress event of a clone task.
#[derive(Debug, Clone)]
pub struct CloneEvent {
    pub task_id: u32,
    /// `start`, `progress`, `done`, `cancelled` or `failed`.
    pub phase: String,
    /// Progress phase: receiving, resolving, ...
    pub stage: Option<String>,
    pub percent: Option<u32>,
    pub message: String,
    pub error: Option<AppError>,
}

/// The network settings the interface sends.
#[derive(Debug, Clone)]
pub struct NetConfig {
    /// `inherit`, `none` or `custom`.
    pub proxy_mode: String,
    pub proxy_url: Option<String>,
    pub ssh_key_path: Option<String>,
}

/// Repository paths given to a second launch of the application.
#[derive(Debug, Clone)]
pub struct AppOpenPaths {
    pub paths: Vec<String>,
}

/// Why a clone request is refused, checked in this order; `None` when
/// it is accepted.
pub open spec fn clone_refusal(url: Seq<char>, dest: Seq<char>, depth: Option<u32>) -> Option<Seq<char>> {
    if trim(url).len() == 0 {
        Some("clone: url is required"@)
    } else if trim(dest).len() == 0 {
        Some("clone: destination path is required"@)
    } else if !url_ok(trim(url)) {
        Some("invalid repository url: "@ + str_debug(trim(url)))
    } else if depth matches Some(d) && (d == 0 || d > 100_000) {
        Some("clone: depth must be 1..=100000"@)
    } else {
        None
    }
}

/// Checks a clone request and gives the clone options: URL and
/// destination trimmed, the URL well formed, a depth in `1..=100000`.
pub fn validate_clone_request(request: CloneRequest) -> (r: Result<CloneOptions, AppError>)
    ensures
        match clone_refusal(request.url@, request.dest@, request.depth) {
            None => r matches Ok(o) && o.url@ == trim(request.url@) && o.dest@ == trim(request.dest@)
                && o.depth == request.depth && o.single_branch == request.single_branch
                && o.recurse_submodules == request.recurse_submodules,
            Some(m) => r matches Err(AppError::Parse { message }) && message@ == m,
        },
{
    let uc = to_chars(request.url.as_str());
    let ut = trim_chars(uc.as_slice());
    let url = string_of(ut.as_slice());
    let dc = to_chars(request.dest.as_str());
    let dt = trim_chars(dc.as_slice());
    let dest = string_of(dt.as_slice());
    if url.as_str().is_empty() {
        return Err(AppError::parse("clone: url is required".to_string()));
    }
    if dest.as_str().is_empty() {
        return Err(AppError::parse("clone: destination path is required".to_string()));
    }
    match validate_url(url.as_str()) {
        Ok(()) => {},
        Err(e) => return Err(e),
    }
    match request.depth {
        Some(d) => {
            if d == 0 || d > 100_000 {
                return Err(AppError::parse("clone: depth must be 1..=100000".to_string()));
            }
        },
        None => {},
    }
    Ok(
        CloneOptions {
            url,
            dest,
            depth: request.depth,
            single_branch: request.single_branch,
            recurse_submodules: request.recurse_submodules,
        },
    )
}

/// The event that opens a clone task.
pub fn clone_start_event(task_id: u32, url: &str) -> (r: CloneEvent)
    ensures
        r.task_id == task_id,
        r.phase@ == "start"@,
        r.stage is None,
        r.percent is None,
        r.message@ == "clone "@ + url@,
        r.error is None,
{
    let mut m = String::new();
    push_str(&mut m, "clone ");
    push_str(&mut m, url);
    CloneEvent { task_id, phase: "start".to_string(), stage: None, percent: None, message: m, error: None }
}

/// The event for one progress line of git: its phase and percentage, and
/// the line itself.
pub fn clone_line_event(task_id: u32, line: String) -> (r: CloneEvent)
    ensures
        r.task_id == task_id,
        r.phase@ == "progress"@,
        opt_str(r.stage) == Some(clone_progress(line@).phase),
        r.percent == clone_progress(line@).percent,
        r.message@ == line@,
        r.error is None,
{
    let p = parse_clone_progress(line.as_str());
    CloneEvent {
        task_id,
        phase: "progress".to_string(),
        stage: Some(p.phase),
        percent: p.percent,
        message: line,
        error: None,
    }
}

/// The closing event of a clone: `done` at 100%, `cancelled` when the
/// user or the credential prompt cancelled, `failed` with the error.
pub fn clone_finish_event(task_id: u32, result: Result<(), AppError>, dest: &str) -> (r: CloneEvent)
    ensures
        r.task_id == task_id,
        r.stage is None,
        match result {
            Ok(()) => r.phase@ == "done"@ && r.percent == Some(100u32) && r.message@ == "cloned into "@ + dest@
                && r.error is None,
            Err(AppError::OperationCancelled) | Err(AppError::CredentialCancelled) => r.phase@ == "cancelled"@
                && r.percent is None && r.message@ == "clone cancelled"@ && r.error is None,
            Err(e) => r.phase@ == "failed"@ && r.percent is None && r.message@ == error_message(e) && r.error
                == Some(e),
        },
{
    match result {
        Ok(()) => {
            let mut m = String::new();
            push_str(&mut m, "cloned into ");
            push_str(&mut m, dest);
            CloneEvent { task_id, phase: "done".to_string(), stage: None, percent: Some(100), message: m, error: None }
        },
        Err(AppError::OperationCancelled) | Err(AppError::CredentialCancelled) => CloneEvent {
            task_id,
            phase: "cancelled".to_string(),
            stage: None,
            percent: None,
            message: "clone cancelled".to_string(),
            error: None,
        },
        Err(e) => {
            let m = e.message();
            CloneEvent { task_id, phase: "failed".to_string(), stage: None, percent: None, message: m, error: Some(e) }
        },
    }
}

/// A setting left blank counts as unset.
pub fn non_blank(o: Option<String>) -> (r: Option<String>)
    ensures
        match o {
            Some(s) => if trim(s@).len() > 0 {
                r == Some(s)
            } else {
                r is None
            },
            None => r is None,
        },
{
    match o {
        Some(s) => {
            let c = to_chars(s.as_str());
            let t = trim_chars(c.as_slice());
            if t.len() > 0 {
                Some(s)
            } else {
                None
            }
        },
        None => None,
    }
}

/// Severity of a log line from the web view.
#[derive(Debug, Clone, Copy, PartialEq, Eq, Structural)]
pub enum FrontendLogLevel {
    Error,
    Warn,
    Info,
}

/// Most characters of a frontend log line kept.
pub const MAX_LOG_CHARS: usize = 4000;

/// A frontend log line, clipped to `MAX_LOG_CHARS` characters with an
/// ellipsis when longer.
pub fn clip_log_message(message: String) -> (r: String)
    ensures
        message@.len() <= MAX_LOG_CHARS ==> r@ == message@,
        message@.len() > MAX_LOG_CHARS ==> r@ == message@.take(MAX_LOG_CHARS as int).push('…'),
{
    let c = to_chars(message.as_str());
    if c.len() <= MAX_LOG_CHARS {
        message
    } else {
        let mut clipped = string_of_range(c.as_slice(), 0, MAX_LOG_CHARS);
        push_char(&mut clipped, '…');
        assert(c@.subrange(0, MAX_LOG_CHARS as int) =~= message@.take(MAX_LOG_CHARS as int));
        clipped
    }
}

/// The git executable path a user configured, trimmed; refused when blank.
pub fn git_path_input(path: &str) -> (r: Result<String, AppError>)
    ensures
        trim(path@).len() > 0 ==> (r matches Ok(p) && p@ == trim(path@)),
        trim(path@).len() == 0 ==> (r matches Err(AppError::Parse { message }) && message@ == "git path is empty"@),
{
    let c = to_chars(path);
    let t = trim_chars(c.as_slice());
    if t.len() == 0 {
        Err(AppError::parse("git path is empty".to_string()))
    } else {
        Ok(string_of(t.as_slice()))
    }
}

} // verus!
