//! Decisions of git invocations around the commit graph and the state of
//! an in-progress operation: the hash jump, the `git log` arguments, how
//! its outcome is read, and which operation the `.git` state files show.

use vstd::prelude::*;
use crate::text::{trim, dec_string, parse_u32, to_chars, trim_chars, string_of, push_str, push_u64, strs, opt_str, parse_u32_chars, contains, contains_seq};
use crate::model::{GraphFilter, CommitInfo, OperationKind, OperationState, OperationStateV, seq_view};
use crate::parse::{parse_log, log_model};
use crate::error::AppError;

verus! {

// =====================
// Commit graph
// =====================

/// The format of `git log` records the graph reads.
pub const LOG_FORMAT: &'static str = "%H%n%h%n%an%n%ae%n%aI%n%s%n%d%n%P";

pub open spec fn is_hex_digit(c: char) -> bool {
    ('0' <= c && c <= '9') || ('a' <= c && c <= 'f') || ('A' <= c && c <= 'F')
}

/// The search text, when it reads as a hash prefix: at least four hex
/// digits.
pub open spec fn hash_prefix(text: Option<Seq<char>>) -> Option<Seq<char>> {
    match text {
        Some(t) => if t.len() >= 4 && forall|i: int| 0 <= i < t.len() ==> is_hex_digit(#[trigger] t[i]) {
            Some(t)
        } else {
            None
        },
        None => None,
    }
}

fn hex_prefix(t: &str) -> (r: bool)
    ensures
        r == (t@.len() >= 4 && forall|i: int| 0 <= i < t@.len() ==> is_hex_digit(#[trigger] t@[i])),
{
    let c = to_chars(t);
    if c.len() < 4 {
        return false;
    }
    let mut i: usize = 0;
    while i < c.len()
        invariant
            0 <= i <= c@.len(),
            c@ == t@,
            forall|j: int| 0 <= j < i ==> is_hex_digit(#[trigger] c@[j]),
        decreases c.len() - i,
    {
        let ch = c[i];
        if !(('0' <= ch && ch <= '9') || ('a' <= ch && ch <= 'f') || ('A' <= ch && ch <= 'F')) {
            assert(!is_hex_digit(c@[i as int]));
            return false;
        }
        i += 1;
    }
    true
}

/// The revision a hash jump probes (`<prefix>^{commit}`), when the search
/// text is a hash prefix.
pub fn hash_jump_probe(filter: &GraphFilter) -> (r: Option<String>)
    ensures
        match hash_prefix(opt_str(filter.text)) {
            Some(t) => opt_str(r) == Some(t + "^{commit}"@),
            None => r is None,
        },
{
    match &filter.text {
        Some(t) => {
            if hex_prefix(t.as_str()) {
                let mut p = String::new();
                push_str(&mut p, t.as_str());
                push_str(&mut p, "^{commit}");
                Some(p)
            } else {
                None
            }
        },
        None => None,
    }
}

/// Where the graph starts after a hash jump: the resolved commit when
/// `rev-parse` succeeded.
pub fn hash_jump_start(exit_code: Option<i32>, stdout: &str) -> (r: Option<String>)
    ensures
        exit_code == Some(0i32) ==> opt_str(r) == Some(trim(stdout@)),
        exit_code != Some(0i32) ==> r is None,
{
    if exit_code == Some(0i32) {
        let c = to_chars(stdout);
        Some(string_of(trim_chars(c.as_slice()).as_slice()))
    } else {
        None
    }
}

/// A filter value that is set and not empty.
pub open spec fn set_value(o: Option<Seq<char>>) -> Option<Seq<char>> {
    match o {
        Some(s) => if s.len() > 0 {
            Some(s)
        } else {
            None
        },
        None => None,
    }
}

pub open spec fn opt_args(o: Option<Seq<char>>, flags: Seq<Seq<char>>) -> Seq<Seq<char>> {
    match set_value(o) {
        Some(s) => flags.push(s),
        None => Seq::<Seq<char>>::empty(),
    }
}

/// The `git log` arguments of one page of the graph: topological order,
/// the record format, the jump start or a case-insensitive message grep,
/// author, date range, paging and path limits.
pub open spec fn graph_args_spec(
    repo: Seq<char>,
    skip: u32,
    limit: u32,
    text: Option<Seq<char>>,
    author: Option<Seq<char>>,
    since: Option<Seq<char>>,
    until: Option<Seq<char>>,
    paths: Seq<Seq<char>>,
    start: Option<Seq<char>>,
) -> Seq<Seq<char>> {
    seq!["-C"@, repo, "log"@, "--topo-order"@, "--no-color"@, "--format="@ + LOG_FORMAT@]
        + (match start {
        Some(s) => seq![s],
        None => Seq::<Seq<char>>::empty(),
    }) + (if start is None {
        opt_args(text, seq!["-i"@, "--grep"@])
    } else {
        Seq::<Seq<char>>::empty()
    }) + opt_args(author, seq!["-i"@, "--author"@]) + opt_args(since, seq!["--since"@]) + opt_args(
        until,
        seq!["--until"@],
    ) + (if skip > 0 {
        seq!["--skip"@, dec_string(skip as nat)]
    } else {
        Seq::<Seq<char>>::empty()
    }) + (if limit > 0 && limit != u32::MAX {
        seq!["-n"@, dec_string(limit as nat)]
    } else {
        Seq::<Seq<char>>::empty()
    }) + (if paths.len() > 0 {
        seq!["--"@] + paths
    } else {
        Seq::<Seq<char>>::empty()
    })
}

pub(crate) fn push_arg(args: &mut Vec<String>, a: &str)
    ensures
        strs(final(args)@) == strs(old(args)@).push(a@),
{
    let ghost before = args@;
    args.push(a.to_string());
    assert(strs(args@) =~= strs(before).push(a@));
}

fn push_opt_args(args: &mut Vec<String>, o: &Option<String>, f1: &str, f2: Option<&str>)
    ensures
        strs(final(args)@) == strs(old(args)@) + opt_args(
            opt_str(*o),
            match f2 {
                Some(f) => seq![f1@, f@],
                None => seq![f1@],
            },
        ),
{
    match o {
        Some(v) => {
            if !v.as_str().is_empty() {
                let ghost before = strs(args@);
                push_arg(args, f1);
                match f2 {
                    Some(f) => push_arg(args, f),
                    None => {},
                }
                push_arg(args, v.as_str());
                assert(strs(args@) =~= before + opt_args(
                    opt_str(*o),
                    match f2 {
                        Some(f) => seq![f1@, f@],
                        None => seq![f1@],
                    },
                ));
            } else {
                assert(strs(args@) =~= strs(args@) + Seq::<Seq<char>>::empty());
            }
        },
        None => {
            assert(strs(args@) =~= strs(args@) + Seq::<Seq<char>>::empty());
        },
    }
}

/// The `git log` arguments of one page of the graph.
pub fn graph_args(repo: &str, skip: u32, limit: u32, filter: &GraphFilter, start: &Option<String>) -> (r: Vec<String>)
    ensures
        strs(r@) == graph_args_spec(
            repo@,
            skip,
            limit,
            opt_str(filter.text),
            opt_str(filter.author),
            opt_str(filter.since),
            opt_str(filter.until),
            strs(filter.paths@),
            opt_str(*start),
        ),
{
    let mut args: Vec<String> = Vec::new();
    push_arg(&mut args, "-C");
    push_arg(&mut args, repo);
    push_arg(&mut args, "log");
    push_arg(&mut args, "--topo-order");
    push_arg(&mut args, "--no-color");
    let mut fmt = String::new();
    push_str(&mut fmt, "--format=");
    push_str(&mut fmt, LOG_FORMAT);
    push_arg(&mut args, fmt.as_str());
    let ghost a0 = strs(args@);
    assert(a0 =~= seq!["-C"@, repo@, "log"@, "--topo-order"@, "--no-color"@, "--format="@ + LOG_FORMAT@]);
    match start {
        Some(s) => push_arg(&mut args, s.as_str()),
        None => {},
    }
    let ghost a1 = strs(args@);
    assert(a1 =~= a0 + match opt_str(*start) {
        Some(s) => seq![s],
        None => Seq::<Seq<char>>::empty(),
    });
    if start.is_none() {
        push_opt_args(&mut args, &filter.text, "-i", Some("--grep"));
    }
    let ghost a2 = strs(args@);
    assert(a2 =~= a1 + (if opt_str(*start) is None {
        opt_args(opt_str(filter.text), seq!["-i"@, "--grep"@])
    } else {
        Seq::<Seq<char>>::empty()
    }));
    push_opt_args(&mut args, &filter.author, "-i", Some("--author"));
    push_opt_args(&mut args, &filter.since, "--since", None);
    push_opt_args(&mut args, &filter.until, "--until", None);
    let ghost a3 = strs(args@);
    if skip > 0 {
        push_arg(&mut args, "--skip");
        let mut n = String::new();
        push_u64(&mut n, skip as u64);
        push_arg(&mut args, n.as_str());
    }
    let ghost a4 = strs(args@);
    assert(a4 =~= a3 + (if skip > 0 {
        seq!["--skip"@, dec_string(skip as nat)]
    } else {
        Seq::<Seq<char>>::empty()
    }));
    if limit > 0 && limit != u32::MAX {
        push_arg(&mut args, "-n");
        let mut n = String::new();
        push_u64(&mut n, limit as u64);
        push_arg(&mut args, n.as_str());
    }
    let ghost a5 = strs(args@);
    assert(a5 =~= a4 + (if limit > 0 && limit != u32::MAX {
        seq!["-n"@, dec_string(limit as nat)]
    } else {
        Seq::<Seq<char>>::empty()
    }));
    if filter.paths.len() > 0 {
        push_arg(&mut args, "--");
        let mut i: usize = 0;
        let ghost a6 = strs(args@);
        while i < filter.paths.len()
            invariant
                0 <= i <= filter.paths@.len(),
                strs(args@) == a6 + strs(filter.paths@).take(i as int),
            decreases filter.paths.len() - i,
        {
            push_arg(&mut args, filter.paths[i].as_str());
            assert(strs(filter.paths@).take(i + 1) =~= strs(filter.paths@).take(i as int).push(filter.paths@[i as int]@));
            i += 1;
        }
        assert(strs(filter.paths@).take(filter.paths@.len() as int) =~= strs(filter.paths@));
        assert(strs(args@) =~= a5 + (seq!["--"@] + strs(filter.paths@)));
    } else {
        assert(strs(args@) =~= a5 + Seq::<Seq<char>>::empty());
    }
    args
}

/// An `i32` in decimal.
pub open spec fn int_text(n: i32) -> Seq<char> {
    if n < 0 {
        "-"@ + dec_string((-n) as nat)
    } else {
        dec_string(n as nat)
    }
}

/// `{:?}` of an exit code: `Some(<n>)` or `None`.
pub open spec fn exit_code_text(code: Option<i32>) -> Seq<char> {
    match code {
        Some(n) => "Some("@ + int_text(n) + ")"@,
        None => "None"@,
    }
}

pub(crate) fn push_exit_code(s: &mut String, code: Option<i32>)
    ensures
        final(s)@ == old(s)@ + exit_code_text(code),
{
    match code {
        Some(n) => {
            push_str(s, "Some(");
            if n < 0 {
                push_str(s, "-");
                let m: i64 = -(n as i64);
                push_u64(s, m as u64);
            } else {
                push_u64(s, n as u64);
            }
            push_str(s, ")");
        },
        None => push_str(s, "None"),
    }
}

/// Reads a graph page from `git log`: its records on success, no commits
/// for a repository without any, the git error otherwise.
pub fn graph_outcome(exit_code: Option<i32>, stdout: String, stderr: String) -> (r: Result<Vec<CommitInfo>, AppError>)
    ensures
        exit_code == Some(0i32) ==> (r matches Ok(v) && seq_view(v@) == log_model(stdout@)),
        exit_code != Some(0i32) && contains(stderr@, "does not have any commits"@) ==> (r matches Ok(v) && v@.len()
            == 0),
        exit_code != Some(0i32) && !contains(stderr@, "does not have any commits"@) ==> (r matches Err(
            AppError::GitCommand { command, stderr: e, stdout: o, detail },
        ) && command@ == "git exited with code "@ + exit_code_text(exit_code) && e@ == stderr@ && o@ == stdout@
            && detail is None),
{
    if exit_code == Some(0i32) {
        return Ok(parse_log(stdout.as_str()));
    }
    let ec = to_chars(stderr.as_str());
    let marker = to_chars("does not have any commits");
    if contains_seq(ec.as_slice(), marker.as_slice()) {
        return Ok(Vec::new());
    }
    let mut command = String::new();
    push_str(&mut command, "git exited with code ");
    push_exit_code(&mut command, exit_code);
    Err(AppError::git_command(command, stderr, stdout))
}

// =====================
// In-progress operation
// =====================

/// What the `.git` directory holds of an operation: which state files
/// and directories exist, and the text of those that could be read.
#[derive(Debug, Clone)]
pub struct GitDirProbe {
    pub rebase_merge: bool,
    pub rebase_merge_onto: Option<String>,
    pub rebase_merge_msgnum: Option<String>,
    pub rebase_merge_end: Option<String>,
    pub rebase_apply: bool,
    pub rebase_apply_applying: bool,
    pub rebase_apply_onto: Option<String>,
    pub rebase_apply_msgnum: Option<String>,
    pub rebase_apply_next: Option<String>,
    pub rebase_apply_last: Option<String>,
    pub rebase_apply_end: Option<String>,
    pub rebase_head: Option<String>,
    pub merge_head: bool,
    pub merge_head_text: Option<String>,
    pub cherry_pick_head: bool,
    pub cherry_pick_head_text: Option<String>,
    pub revert_head: bool,
    pub revert_head_text: Option<String>,
    pub merge_msg: Option<String>,
    pub bisect_log: bool,
}

/// The trimmed text of a state file; an empty one counts as absent.
pub open spec fn state_text(o: Option<Seq<char>>) -> Option<Seq<char>> {
    match o {
        Some(s) => if trim(s).len() > 0 {
            Some(trim(s))
        } else {
            None
        },
        None => None,
    }
}

/// A state file holding a number.
pub open spec fn state_num(o: Option<Seq<char>>) -> Option<u32> {
    match state_text(o) {
        Some(t) => parse_u32(t),
        None => None,
    }
}

pub open spec fn or_else<T>(a: Option<T>, b: Option<T>) -> Option<T> {
    match a {
        Some(x) => Some(x),
        None => b,
    }
}

/// The operation in progress, by priority: an interactive or merge-based
/// rebase, then a `rebase-apply` (a `git am` when `applying` exists),
/// then merge, cherry-pick, revert and bisect.
pub open spec fn operation_spec(p: GitDirProbe) -> Option<OperationStateV> {
    if p.rebase_merge {
        Some(
            OperationStateV {
                kind: OperationKind::Rebase,
                onto: or_else(state_text(opt_str(p.rebase_merge_onto)), state_text(opt_str(p.rebase_head))),
                step: state_num(opt_str(p.rebase_merge_msgnum)),
                total: state_num(opt_str(p.rebase_merge_end)),
                message: None,
            },
        )
    } else if p.rebase_apply {
        Some(
            OperationStateV {
                kind: if p.rebase_apply_applying {
                    OperationKind::Apply
                } else {
                    OperationKind::Rebase
                },
                onto: or_else(state_text(opt_str(p.rebase_apply_onto)), state_text(opt_str(p.rebase_head))),
                step: or_else(state_num(opt_str(p.rebase_apply_msgnum)), state_num(opt_str(p.rebase_apply_next))),
                total: or_else(state_num(opt_str(p.rebase_apply_last)), state_num(opt_str(p.rebase_apply_end))),
                message: None,
            },
        )
    } else if p.merge_head {
        Some(
            OperationStateV {
                kind: OperationKind::Merge,
                onto: state_text(opt_str(p.merge_head_text)),
                step: None,
                total: None,
                message: state_text(opt_str(p.merge_msg)),
            },
        )
    } else if p.cherry_pick_head {
        Some(
            OperationStateV {
                kind: OperationKind::CherryPick,
                onto: state_text(opt_str(p.cherry_pick_head_text)),
                step: None,
                total: None,
                message: state_text(opt_str(p.merge_msg)),
            },
        )
    } else if p.revert_head {
        Some(
            OperationStateV {
                kind: OperationKind::Revert,
                onto: state_text(opt_str(p.revert_head_text)),
                step: None,
                total: None,
                message: state_text(opt_str(p.merge_msg)),
            },
        )
    } else if p.bisect_log {
        Some(OperationStateV { kind: OperationKind::Bisect, onto: None, step: None, total: None, message: None })
    } else {
        None
    }
}

fn read_trimmed(o: &Option<String>) -> (r: Option<String>)
    ensures
        opt_str(r) == state_text(opt_str(*o)),
{
    match o {
        Some(s) => {
            let c = to_chars(s.as_str());
            let t = trim_chars(c.as_slice());
            if t.len() > 0 {
                Some(string_of(t.as_slice()))
            } else {
                None
            }
        },
        None => None,
    }
}

fn read_num(o: &Option<String>) -> (r: Option<u32>)
    ensures
        r == state_num(opt_str(*o)),
{
    match read_trimmed(o) {
        Some(t) => {
            let c = to_chars(t.as_str());
            parse_u32_chars(c.as_slice())
        },
        None => None,
    }
}

fn either<T>(a: Option<T>, b: Option<T>) -> (r: Option<T>)
    ensures
        r == or_else(a, b),
{
    match a {
        Some(x) => Some(x),
        None => b,
    }
}

/// The operation in progress that the `.git` state files show, if any.
pub fn detect_operation_state(p: &GitDirProbe) -> (r: Option<OperationState>)
    ensures
        match operation_spec(*p) {
            Some(s) => r matches Some(o) && o@ == s,
            None => r is None,
        },
{
    if p.rebase_merge {
        return Some(
            OperationState {
                kind: OperationKind::Rebase,
                onto: either(read_trimmed(&p.rebase_merge_onto), read_trimmed(&p.rebase_head)),
                step: read_num(&p.rebase_merge_msgnum),
                total: read_num(&p.rebase_merge_end),
                message: None,
            },
        );
    }
    if p.rebase_apply {
        let kind = if p.rebase_apply_applying {
            OperationKind::Apply
        } else {
            OperationKind::Rebase
        };
        return Some(
            OperationState {
                kind,
                onto: either(read_trimmed(&p.rebase_apply_onto), read_trimmed(&p.rebase_head)),
                step: either(read_num(&p.rebase_apply_msgnum), read_num(&p.rebase_apply_next)),
                total: either(read_num(&p.rebase_apply_last), read_num(&p.rebase_apply_end)),
                message: None,
            },
        );
    }
    if p.merge_head {
        return Some(
            OperationState {
                kind: OperationKind::Merge,
                onto: read_trimmed(&p.merge_head_text),
                step: None,
                total: None,
                message: read_trimmed(&p.merge_msg),
            },
        );
    }
    if p.cherry_pick_head {
        return Some(
            OperationState {
                kind: OperationKind::CherryPick,
                onto: read_trimmed(&p.cherry_pick_head_text),
                step: None,
                total: None,
                message: read_trimmed(&p.merge_msg),
            },
        );
    }
    if p.revert_head {
        return Some(
            OperationState {
                kind: OperationKind::Revert,
                onto: read_trimmed(&p.revert_head_text),
                step: None,
                total: None,
                message: read_trimmed(&p.merge_msg),
            },
        );
    }
    if p.bisect_log {
        return Some(OperationState { kind: OperationKind::Bisect, onto: None, step: None, total: None, message: None });
    }
    None
}

} // verus!
verus! {

// =====================
// Process outcomes
// =====================

/// `e` is the error of a git run that did not succeed: its exit code, or
/// the signal that ended it.
pub open spec fn is_exit_error(e: AppError, exit_code: Option<i32>, stderr: Seq<char>, stdout: Seq<char>) -> bool {
    match exit_code {
        Some(c) => e matches AppError::GitCommand { command, stderr: se, stdout: so, detail } && command@
            == "git exited with code "@ + int_text(c) && se@ == stderr && so@ == stdout && detail is None,
        None => e matches AppError::Internal { message } && message@ == "git process terminated by signal"@,
    }
}

/// Appends `n` in decimal.
pub(crate) fn push_i32(s: &mut String, n: i32)
    ensures
        final(s)@ == old(s)@ + int_text(n),
{
    if n < 0 {
        push_str(s, "-");
        let m: i64 = -(n as i64);
        push_u64(s, m as u64);
    } else {
        push_u64(s, n as u64);
    }
}

fn exit_error(code: Option<i32>, stderr: String, stdout: String) -> (r: AppError)
    ensures
        match code {
            Some(c) => r matches AppError::GitCommand { command, stderr: e, stdout: o, detail } && command@
                == "git exited with code "@ + int_text(c) && e@ == stderr@ && o@ == stdout@ && detail is None,
            None => r matches AppError::Internal { message } && message@ == "git process terminated by signal"@,
        },
{
    match code {
        Some(c) => {
            let mut command = String::new();
            push_str(&mut command, "git exited with code ");
            push_i32(&mut command, c);
            AppError::git_command(command, stderr, stdout)
        },
        None => AppError::internal("git process terminated by signal".to_string()),
    }
}

/// Success for exit code 0; otherwise the exit code's error (or the
/// signal's when there is none).
pub fn ensure_success(exit_code: Option<i32>, stderr: String, stdout: String) -> (r: Result<(), AppError>)
    ensures
        exit_code == Some(0i32) ==> r is Ok,
        exit_code != Some(0i32) ==> (r matches Err(e) && match exit_code {
            Some(c) => e matches AppError::GitCommand { command, stderr: se, stdout: so, detail } && command@
                == "git exited with code "@ + int_text(c) && se@ == stderr@ && so@ == stdout@ && detail is None,
            None => e matches AppError::Internal { message } && message@ == "git process terminated by signal"@,
        }),
{
    if exit_code == Some(0i32) {
        Ok(())
    } else {
        Err(exit_error(exit_code, stderr, stdout))
    }
}

/// As `ensure_success`, for network commands: a failure whose stderr
/// holds the credential-cancel marker is the user's cancel.
pub fn ensure_success_net(exit_code: Option<i32>, stderr: String, stdout: String) -> (r: Result<(), AppError>)
    ensures
        exit_code == Some(0i32) ==> r is Ok,
        exit_code != Some(0i32) && contains(stderr@, crate::credential::CREDENTIAL_CANCELLED_MARKER@) ==> r
            == Err::<(), AppError>(AppError::CredentialCancelled),
        exit_code != Some(0i32) && !contains(stderr@, crate::credential::CREDENTIAL_CANCELLED_MARKER@) ==> (r matches Err(e)
            && match exit_code {
            Some(c) => e matches AppError::GitCommand { command, stderr: se, stdout: so, detail } && command@
                == "git exited with code "@ + int_text(c) && se@ == stderr@ && so@ == stdout@ && detail is None,
            None => e matches AppError::Internal { message } && message@ == "git process terminated by signal"@,
        }),
{
    if exit_code != Some(0i32) {
        let ec = to_chars(stderr.as_str());
        let marker = to_chars(crate::credential::CREDENTIAL_CANCELLED_MARKER);
        if contains_seq(ec.as_slice(), marker.as_slice()) {
            return Err(AppError::CredentialCancelled);
        }
    }
    ensure_success(exit_code, stderr, stdout)
}

/// The reset modes git accepts.
pub fn valid_reset_mode(mode: &str) -> (r: bool)
    ensures
        r == (mode@ == "soft"@ || mode@ == "mixed"@ || mode@ == "hard"@),
{
    let m = to_chars(mode);
    let soft = to_chars("soft");
    let mixed = to_chars("mixed");
    let hard = to_chars("hard");
    crate::text::eq_chars(m.as_slice(), soft.as_slice()) || crate::text::eq_chars(m.as_slice(), mixed.as_slice())
        || crate::text::eq_chars(m.as_slice(), hard.as_slice())
}

/// The stash index git names in a message (`stash@{N}`): read on the first
/// line that mentions a stash, none when its number is malformed.
pub open spec fn stash_index_spec(stderr: Seq<char>) -> Option<usize> {
    match first_line_with(crate::text::lines(stderr), "stash@{"@, 0) {
        Some(line) => {
            let start = crate::text::find(line, "stash@{"@)->0 + 7;
            let rest = line.skip(start);
            match crate::text::find(rest, seq!['}']) {
                Some(end) => match crate::text::parse_u64(rest.take(end)) {
                    Some(n) => if n <= usize::MAX {
                        Some(n as usize)
                    } else {
                        None
                    },
                    None => None,
                },
                None => None,
            }
        },
        None => None,
    }
}

/// The first line from `i` on that contains `p`.
pub open spec fn first_line_with(ls: Seq<Seq<char>>, p: Seq<char>, i: int) -> Option<Seq<char>>
    decreases ls.len() - i,
{
    if i < 0 || i >= ls.len() {
        None
    } else if contains(ls[i], p) {
        Some(ls[i])
    } else {
        first_line_with(ls, p, i + 1)
    }
}

/// The stash index in git's output, if any line names one.
pub fn extract_stash_index(stderr: &str) -> (r: Option<usize>)
    ensures
        r == stash_index_spec(stderr@),
{
    let c = to_chars(stderr);
    let ls = crate::text::split_lines(c.as_slice());
    let pat = to_chars("stash@{");
    let mut i: usize = 0;
    while i < ls.len()
        invariant
            0 <= i <= ls@.len(),
            crate::text::views(ls@) == crate::text::lines(stderr@),
            pat@ == "stash@{"@,
            first_line_with(crate::text::views(ls@), "stash@{"@, 0) == first_line_with(
                crate::text::views(ls@),
                "stash@{"@,
                i as int,
            ),
        decreases ls.len() - i,
    {
        let line = &ls[i];
        assert(line@ == crate::text::views(ls@)[i as int]);
        match crate::text::find_seq(line.as_slice(), pat.as_slice()) {
            Some(k) => {
                proof {
                    crate::text::lemma_find_occurs(line@, pat@);
                    reveal_strlit("stash@{");
                    assert(pat@.len() == 7);
                    assert(k + 7 <= line@.len());
                }
                let n = line.len();
                assert(n == line@.len());
                let start = k + 7;
                let rest = crate::text::slice_range(line.as_slice(), start, line.len());
                assert(rest@ == line@.skip(start as int));
                let end = match crate::text::find_char(rest.as_slice(), '}') {
                    Some(e) => e,
                    None => return None,
                };
                proof {
                    crate::text::lemma_find_occurs(rest@, seq!['}']);
                }
                let digits = crate::text::slice_range(rest.as_slice(), 0, end);
                assert(digits@ == rest@.take(end as int));
                return match crate::text::parse_u64_chars(digits.as_slice()) {
                    Some(n) => if n <= usize::MAX as u64 {
                        Some(n as usize)
                    } else {
                        None
                    },
                    None => None,
                };
            },
            None => {},
        }
        i += 1;
    }
    None
}

} // verus!
