//! What the installed git can do: its version, read from `git --version`,
//! and the capability flags the engine relies on (git 2.40 and later
//! support them all).

use vstd::prelude::*;
use crate::text::{parse_u32, parse_u32_chars, to_chars, trim, trim_chars, string_of, push_str};
use crate::matching::{regex_groups, group_of, capture_group};
use crate::utf8::{utf8_lossy, string_from_utf8_lossy};
use crate::error::AppError;

verus! {

/// `git status --porcelain=v2` is supported (git 2.11+).
pub const PORCELAIN_V2: u32 = 1;
/// `git restore` / `git switch` are available (git 2.23+).
pub const RESTORE_SWITCH: u32 = 2;
/// `git push --set-upstream` works.
pub const PUSH_SET_UPSTREAM: u32 = 4;
/// `git push --force-with-lease` is supported.
pub const FORCE_WITH_LEASE: u32 = 8;
/// `-c core.quotepath=false` reliably works.
pub const QUOTEPATH_FALSE: u32 = 0x10;
/// `git log --topo-order` is available.
pub const TOPO_ORDER: u32 = 0x20;
/// `git diff --name-only` works.
pub const DIFF_NAME_ONLY: u32 = 0x40;
/// `git stash` is available.
pub const STASH: u32 = 0x80;
/// `git reflog` is available.
pub const REFLOG: u32 = 0x100;
/// `git merge-base` is available.
pub const MERGE_BASE: u32 = 0x200;
/// `git worktree` is available (git 2.5+).
pub const WORKTREE: u32 = 0x400;
/// `git submodule` commands are available.
pub const SUBMODULE: u32 = 0x800;
/// `git diff --submodule` is available.
pub const DIFF_SUBMODULE: u32 = 0x1000;
/// `git log --follow` supports the `--` separator.
pub const LOG_FOLLOW: u32 = 0x2000;
/// `git config --global` / `--local` work as expected.
pub const CONFIG_GLOBAL_LOCAL: u32 = 0x4000;
/// `git remote set-url` is available.
pub const REMOTE_SET_URL: u32 = 0x8000;
/// `git tag -a` / `-s` are available.
pub const TAG_ANNOTATED: u32 = 0x1_0000;
/// `git branch --show-current` is available (git 2.22+).
pub const BRANCH_SHOW_CURRENT: u32 = 0x2_0000;
/// `git rev-parse --verify` works.
pub const REV_PARSE_VERIFY: u32 = 0x4_0000;
/// `git apply --cached` / `--reverse` are available.
pub const APPLY_CACHED_REVERSE: u32 = 0x8_0000;
/// `git diff -z` is available.
pub const DIFF_Z: u32 = 0x10_0000;
/// `git status --untracked-files=all` works.
pub const STATUS_UNTRACKED_ALL: u32 = 0x20_0000;
/// `git merge --strategy-option` is available.
pub const MERGE_STRATEGY_OPTION: u32 = 0x40_0000;
/// `git rebase --onto` is available.
pub const REBASE_ONTO: u32 = 0x80_0000;
/// `git cherry-pick` is available.
pub const CHERRY_PICK: u32 = 0x100_0000;
/// `git reset --mixed` / `--soft` / `--hard` are available.
pub const RESET_MODES: u32 = 0x200_0000;
/// `git clean -n` (preview) is available.
pub const CLEAN_PREVIEW: u32 = 0x400_0000;
/// `git config --list` works.
pub const CONFIG_LIST: u32 = 0x800_0000;
/// `git config --get` works.
pub const CONFIG_GET: u32 = 0x1000_0000;
/// `git config --add` works.
pub const CONFIG_ADD: u32 = 0x2000_0000;
/// `git blame --porcelain` is available.
pub const BLAME_PORCELAIN: u32 = 0x4000_0000;

/// Every capability flag.
pub const ALL_CAPABILITIES: u32 = 0x7FFF_FFFF;

/// The set of capabilities of the installed git.
#[derive(Debug, Clone, Copy, PartialEq, Eq, Structural)]
pub struct GitCapabilities {
    bits: u32,
}

impl GitCapabilities {
    pub closed spec fn spec_bits(self) -> u32 {
        self.bits
    }

    /// No capability.
    pub fn empty() -> (r: Self)
        ensures
            r.spec_bits() == 0,
    {
        GitCapabilities { bits: 0 }
    }

    /// The flags of the set.
    pub fn bits(&self) -> (r: u32)
        ensures
            r == self.spec_bits(),
    {
        self.bits
    }

    /// Whether every flag of `flags` is in the set.
    pub fn contains(&self, flags: u32) -> (r: bool)
        ensures
            r == (self.spec_bits() & flags == flags),
    {
        self.bits & flags == flags
    }

    /// Adds the flags of `flags`.
    pub fn insert(&mut self, flags: u32)
        ensures
            final(self).spec_bits() == old(self).spec_bits() | flags,
    {
        self.bits = self.bits | flags;
    }
}

/// The version pattern: three dot-separated numbers.
pub const VERSION_PATTERN: &'static str = "(\\d+)\\.(\\d+)\\.(\\d+)";

/// What the error of parsing `s` as a `u32` displays (empty when it
/// parses).
pub uninterp spec fn u32_parse_error(s: Seq<char>) -> Seq<char>;

/// `str::parse::<u32>` (std), the text its error displays. Claimed: the
/// result is `u32_parse_error` of the text, a function of it alone.
#[verifier::external_body]
fn u32_parse_error_text(s: &str) -> (r: String)
    ensures
        r@ == u32_parse_error(s@),
{
    match s.parse::<u32>() {
        Ok(_) => String::new(),
        Err(e) => e.to_string(),
    }
}

/// The text of group `i` of the version match (empty when absent).
pub open spec fn version_group(text: Seq<char>, i: int) -> Seq<char> {
    match group_of(regex_groups(VERSION_PATTERN@, text), i) {
        Some(t) => t,
        None => Seq::<char>::empty(),
    }
}

/// `(major, minor, patch)` of the first three dot-separated numbers of a
/// `git --version` text, or the error message: no such numbers, or the
/// parse error of the first number that is not a `u32`.
pub open spec fn version_of(text: Seq<char>) -> Result<(u32, u32, u32), Seq<char>> {
    if regex_groups(VERSION_PATTERN@, text) is None {
        Err("Unable to parse git version: "@ + text)
    } else {
        match parse_u32(version_group(text, 1)) {
            None => Err(u32_parse_error(version_group(text, 1))),
            Some(a) => match parse_u32(version_group(text, 2)) {
                None => Err(u32_parse_error(version_group(text, 2))),
                Some(b) => match parse_u32(version_group(text, 3)) {
                    None => Err(u32_parse_error(version_group(text, 3))),
                    Some(c) => Ok((a, b, c)),
                },
            },
        }
    }
}

fn version_number(text: &str, i: usize) -> (r: Result<u32, AppError>)
    requires
        1 <= i <= 3,
        regex_groups(VERSION_PATTERN@, text@) is Some,
    ensures
        match parse_u32(version_group(text@, i as int)) {
            Some(v) => r == Ok::<u32, AppError>(v),
            None => r matches Err(AppError::Parse { message }) && message@ == u32_parse_error(
                version_group(text@, i as int),
            ),
        },
{
    let g = match capture_group(VERSION_PATTERN, text, i) {
        Some(s) => s,
        None => String::new(),
    };
    assert(g@ == version_group(text@, i as int));
    let gc = to_chars(g.as_str());
    match parse_u32_chars(gc.as_slice()) {
        Some(v) => Ok(v),
        None => Err(AppError::parse(u32_parse_error_text(g.as_str()))),
    }
}

/// Reads `(major, minor, patch)` from a `git --version` text.
pub fn parse_version(text: &str) -> (r: Result<(u32, u32, u32), AppError>)
    ensures
        match version_of(text@) {
            Ok(v) => r == Ok::<(u32, u32, u32), AppError>(v),
            Err(m) => r matches Err(AppError::Parse { message }) && message@ == m,
        },
{
    if crate::matching::regex_captures(VERSION_PATTERN, text).is_none() {
        let mut m = String::new();
        push_str(&mut m, "Unable to parse git version: ");
        push_str(&mut m, text);
        return Err(AppError::parse(m));
    }
    let a = match version_number(text, 1) {
        Ok(v) => v,
        Err(e) => {
            return Err(e);
        },
    };
    let b = match version_number(text, 2) {
        Ok(v) => v,
        Err(e) => {
            return Err(e);
        },
    };
    let c = match version_number(text, 3) {
        Ok(v) => v,
        Err(e) => {
            return Err(e);
        },
    };
    Ok((a, b, c))
}

/// The version is at least 2.40.0.
pub open spec fn supported_version(v: (u32, u32, u32)) -> bool {
    v.0 > 2 || (v.0 == 2 && (v.1 > 40 || (v.1 == 40 && v.2 >= 0)))
}

/// The capabilities of a git whose `--version` printed `text`: every
/// capability from 2.40.0 on; older versions are refused, naming the
/// version found.
pub fn capabilities_for_version(text: &str) -> (r: Result<GitCapabilities, AppError>)
    ensures
        match version_of(text@) {
            Err(m) => r matches Err(AppError::Parse { message }) && message@ == m,
            Ok(v) => if supported_version(v) {
                r matches Ok(c) && c.spec_bits() == ALL_CAPABILITIES
            } else {
                r matches Err(AppError::GitVersionTooOld { found, required }) && found@ == trim(text@) && required@
                    == "2.40.0"@
            },
        },
{
    let v = match parse_version(text) {
        Ok(v) => v,
        Err(e) => {
            return Err(e);
        },
    };
    if !(v.0 > 2 || (v.0 == 2 && (v.1 > 40 || (v.1 == 40 && v.2 >= 0)))) {
        let t = trim_chars(to_chars(text).as_slice());
        return Err(AppError::GitVersionTooOld { found: string_of(t.as_slice()), required: String::from_str("2.40.0") });
    }
    let mut caps = GitCapabilities::empty();
    caps.insert(PORCELAIN_V2);
    caps.insert(RESTORE_SWITCH);
    caps.insert(PUSH_SET_UPSTREAM);
    caps.insert(FORCE_WITH_LEASE);
    caps.insert(QUOTEPATH_FALSE);
    caps.insert(TOPO_ORDER);
    caps.insert(DIFF_NAME_ONLY);
    caps.insert(STASH);
    caps.insert(REFLOG);
    caps.insert(MERGE_BASE);
    caps.insert(WORKTREE);
    caps.insert(SUBMODULE);
    caps.insert(DIFF_SUBMODULE);
    caps.insert(LOG_FOLLOW);
    caps.insert(CONFIG_GLOBAL_LOCAL);
    caps.insert(REMOTE_SET_URL);
    caps.insert(TAG_ANNOTATED);
    caps.insert(BRANCH_SHOW_CURRENT);
    caps.insert(REV_PARSE_VERIFY);
    caps.insert(APPLY_CACHED_REVERSE);
    caps.insert(DIFF_Z);
    caps.insert(STATUS_UNTRACKED_ALL);
    caps.insert(MERGE_STRATEGY_OPTION);
    caps.insert(REBASE_ONTO);
    caps.insert(CHERRY_PICK);
    caps.insert(RESET_MODES);
    caps.insert(CLEAN_PREVIEW);
    caps.insert(CONFIG_LIST);
    caps.insert(CONFIG_GET);
    caps.insert(CONFIG_ADD);
    caps.insert(BLAME_PORCELAIN);
    assert(0u32 | 1u32 | 2u32 | 4u32 | 8u32 | 0x10u32 | 0x20u32 | 0x40u32 | 0x80u32 | 0x100u32 | 0x200u32 | 0x400u32
        | 0x800u32 | 0x1000u32 | 0x2000u32 | 0x4000u32 | 0x8000u32 | 0x1_0000u32 | 0x2_0000u32 | 0x4_0000u32
        | 0x8_0000u32 | 0x10_0000u32 | 0x20_0000u32 | 0x40_0000u32 | 0x80_0000u32 | 0x100_0000u32 | 0x200_0000u32
        | 0x400_0000u32 | 0x800_0000u32 | 0x1000_0000u32 | 0x2000_0000u32 | 0x4000_0000u32 == 0x7FFF_FFFFu32)
        by (bit_vector);
    Ok(caps)
}

/// The capabilities from a `git --version` run: its error when it failed
/// (output decoded lossily), otherwise those of the version it printed.
pub fn detect_outcome(success: bool, stdout: &[u8], stderr: &[u8]) -> (r: Result<GitCapabilities, AppError>)
    ensures
        !success ==> (r matches Err(AppError::GitCommand { command, stderr: e, stdout: o, detail }) && command@
            == "git --version"@ && e@ == utf8_lossy(stderr@) && o@ == utf8_lossy(stdout@) && detail is None),
        success ==> match version_of(utf8_lossy(stdout@)) {
            Err(m) => r matches Err(AppError::Parse { message }) && message@ == m,
            Ok(v) => if supported_version(v) {
                r matches Ok(c) && c.spec_bits() == ALL_CAPABILITIES
            } else {
                r matches Err(AppError::GitVersionTooOld { found, required }) && found@ == trim(utf8_lossy(stdout@))
                    && required@ == "2.40.0"@
            },
        },
{
    if !success {
        return Err(
            AppError::git_command(
                String::from_str("git --version"),
                string_from_utf8_lossy(stderr),
                string_from_utf8_lossy(stdout),
            ),
        );
    }
    let text = string_from_utf8_lossy(stdout);
    capabilities_for_version(text.as_str())
}

} // verus!
