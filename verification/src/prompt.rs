//! Prompts for the language model: commit messages, and daily or weekly
//! reports with their map and reduce stages. The output language follows
//! the interface locale.

use vstd::prelude::*;
use crate::text::{starts_with, dec_string, to_chars, has_prefix, eq_chars, push_str, push_u64, strs};
use crate::context::{DiffContext, diff_context_text, render_diff_context, sum_added, sum_removed};

verus! {

/// The language a locale asks for.
pub open spec fn language_name(lang: Seq<char>) -> Seq<char> {
    if starts_with(lang, "zh"@) {
        "Simplified Chinese"@
    } else {
        "English"@
    }
}

fn language_of(lang: &str) -> (r: &'static str)
    ensures
        r@ == language_name(lang@),
{
    let lc = to_chars(lang);
    let zh = to_chars("zh");
    if has_prefix(lc.as_slice(), zh.as_slice()) {
        "Simplified Chinese"
    } else {
        "English"
    }
}

/// The style rule of a commit message.
pub open spec fn commit_style(conventional: bool) -> Seq<char> {
    if conventional {
        "Use Conventional Commits style: `type(optional scope): summary`. \
         Choose type from feat|fix|docs|style|refactor|perf|test|build|ci|chore|revert."@
    } else {
        "Write a plain descriptive summary (no type prefix)."@
    }
}

pub open spec fn commit_system_text(conventional: bool, lang: Seq<char>) -> Seq<char> {
    "You are an expert assistant that writes git commit messages.\n\
     Rules:\n\
     - Output ONLY the commit message text. No code fences, no quotes, no explanations.\n\
     - First line: imperative-mood summary, at most 50 characters, no trailing period.\n\
     - Then one blank line, then an optional body explaining WHAT changed and WHY, \
     wrapped at 72 characters. Omit the body when the change is trivial.\n\
     - "@ + commit_style(conventional) + "\n\
     - Write in "@ + language_name(lang) + " unless the diff is clearly dominated by another language.\n\
     - Never invent files or changes that are not in the provided context."@
}

/// The system prompt for a commit message.
pub fn commit_message_system(conventional: bool, language: &str) -> (r: String)
    ensures
        r@ == commit_system_text(conventional, language@),
{
    let mut out = String::new();
    push_str(
        &mut out,
        "You are an expert assistant that writes git commit messages.\n\
     Rules:\n\
     - Output ONLY the commit message text. No code fences, no quotes, no explanations.\n\
     - First line: imperative-mood summary, at most 50 characters, no trailing period.\n\
     - Then one blank line, then an optional body explaining WHAT changed and WHY, \
     wrapped at 72 characters. Omit the body when the change is trivial.\n\
     - ",
    );
    if conventional {
        push_str(
            &mut out,
            "Use Conventional Commits style: `type(optional scope): summary`. \
         Choose type from feat|fix|docs|style|refactor|perf|test|build|ci|chore|revert.",
        );
    } else {
        push_str(&mut out, "Write a plain descriptive summary (no type prefix).");
    }
    push_str(&mut out, "\n\
     - Write in ");
    push_str(&mut out, language_of(language));
    push_str(
        &mut out,
        " unless the diff is clearly dominated by another language.\n\
     - Never invent files or changes that are not in the provided context.",
    );
    out
}

/// The user prompt for a commit message: the instruction, then the
/// rendered staged context.
pub fn commit_message_user(ctx: &DiffContext) -> (r: String)
    requires
        sum_added(ctx@.files) <= u32::MAX,
        sum_removed(ctx@.files) <= u32::MAX,
    ensures
        r@ == "Write one commit message for the following staged changes.\n\n"@ + diff_context_text(ctx@),
{
    let mut out = String::new();
    push_str(&mut out, "Write one commit message for the following staged changes.\n\n");
    let body = render_diff_context(ctx);
    push_str(&mut out, body.as_str());
    out
}

pub open spec fn report_system_text(lang: Seq<char>) -> Seq<char> {
    "You are an assistant that writes developer work reports in Markdown.\n\
     Rules:\n\
     - Output ONLY Markdown. Start with a `## ` heading.\n\
     - Structure: a one-paragraph overview, thematic highlight sections (by feature area), \
     then a `## 统计` / `## Stats` section with commits, files changed and lines added/removed.\n\
     - Group related commits; do not list every commit verbatim when themes emerge.\n\
     - NEVER invent commits, files or numbers that are not in the data. \
     If data is thin, say so briefly instead of padding.\n\
     - Write in "@ + language_name(lang) + "."@
}

/// The system prompt of a report (and of its reduce stage).
pub fn report_system(language: &str) -> (r: String)
    ensures
        r@ == report_system_text(language@),
{
    let mut out = String::new();
    push_str(
        &mut out,
        "You are an assistant that writes developer work reports in Markdown.\n\
     Rules:\n\
     - Output ONLY Markdown. Start with a `## ` heading.\n\
     - Structure: a one-paragraph overview, thematic highlight sections (by feature area), \
     then a `## 统计` / `## Stats` section with commits, files changed and lines added/removed.\n\
     - Group related commits; do not list every commit verbatim when themes emerge.\n\
     - NEVER invent commits, files or numbers that are not in the data. \
     If data is thin, say so briefly instead of padding.\n\
     - Write in ",
    );
    push_str(&mut out, language_of(language));
    push_str(&mut out, ".");
    out
}

/// `weekly` for a weekly report, `daily` for anything else.
pub open spec fn kind_label(kind: Seq<char>) -> Seq<char> {
    if kind == "weekly"@ {
        "weekly"@
    } else {
        "daily"@
    }
}

fn kind_label_of(kind: &str) -> (r: &'static str)
    ensures
        r@ == kind_label(kind@),
{
    let kc = to_chars(kind);
    let w = to_chars("weekly");
    if eq_chars(kc.as_slice(), w.as_slice()) {
        "weekly"
    } else {
        "daily"
    }
}

pub open spec fn report_user_text(
    kind: Seq<char>,
    since: Seq<char>,
    repo_count: nat,
    author_note: Seq<char>,
    context: Seq<char>,
) -> Seq<char> {
    "Write a "@ + kind_label(kind) + " report from the following commits.\n\
     Range: since "@ + since + ". Repositories: "@ + dec_string(repo_count) + ". "@ + author_note + "\n\
     The lines under each commit are `path +added -deleted` stats (binary files have no counts).\n\n"@
        + context
}

/// The user prompt of a report: kind, range, repository count, author
/// note, then the commit listing.
pub fn report_user(kind: &str, since: &str, repo_count: usize, author_note: &str, context: &str) -> (r: String)
    ensures
        r@ == report_user_text(kind@, since@, repo_count as nat, author_note@, context@),
{
    let mut out = String::new();
    push_str(&mut out, "Write a ");
    push_str(&mut out, kind_label_of(kind));
    push_str(&mut out, " report from the following commits.\n\
     Range: since ");
    push_str(&mut out, since);
    push_str(&mut out, ". Repositories: ");
    push_u64(&mut out, repo_count as u64);
    push_str(&mut out, ". ");
    push_str(&mut out, author_note);
    push_str(
        &mut out,
        "\n\
     The lines under each commit are `path +added -deleted` stats (binary files have no counts).\n\n",
    );
    push_str(&mut out, context);
    out
}

pub open spec fn map_system_text(lang: Seq<char>) -> Seq<char> {
    "You are summarizing git commits for a work report. \
     Output ONLY 3-8 concise Markdown bullet points covering the main themes, \
     notable files/stats, and anything unusual. Write in "@ + language_name(lang)
        + ". Do not invent facts."@
}

/// The system prompt of the map stage (one batch).
pub fn map_system(language: &str) -> (r: String)
    ensures
        r@ == map_system_text(language@),
{
    let mut out = String::new();
    push_str(
        &mut out,
        "You are summarizing git commits for a work report. \
     Output ONLY 3-8 concise Markdown bullet points covering the main themes, \
     notable files/stats, and anything unusual. Write in ",
    );
    push_str(&mut out, language_of(language));
    push_str(&mut out, ". Do not invent facts.");
    out
}

/// The user prompt of the map stage.
pub fn map_user(batch_context: &str) -> (r: String)
    ensures
        r@ == "Summarize these commits:\n\n"@ + batch_context@,
{
    let mut out = String::new();
    push_str(&mut out, "Summarize these commits:\n\n");
    push_str(&mut out, batch_context);
    out
}

/// The system prompt of the reduce stage: the report's own.
pub fn reduce_system(language: &str) -> (r: String)
    ensures
        r@ == report_system_text(language@),
{
    report_system(language)
}

/// The batch summaries, each under a numbered heading.
pub open spec fn batch_sections(summaries: Seq<Seq<char>>) -> Seq<char>
    decreases summaries.len(),
{
    if summaries.len() == 0 {
        Seq::<char>::empty()
    } else {
        batch_sections(summaries.drop_last()) + "### Batch "@ + dec_string(summaries.len()) + " summary\n"@
            + summaries.last() + "\n"@
    }
}

pub open spec fn reduce_user_text(kind: Seq<char>, since: Seq<char>, repo_count: nat, summaries: Seq<Seq<char>>) -> Seq<char> {
    "Merge the following batch summaries of "@ + dec_string(repo_count) + " repositories' commits \
     into ONE coherent "@ + kind_label(kind) + " report in Markdown. Range: since "@ + since
        + ". \
     Deduplicate repeated themes and keep the stats meaningful.\n\n"@ + batch_sections(summaries)
}

/// The user prompt of the reduce stage: merge the numbered summaries.
pub fn reduce_user(kind: &str, since: &str, repo_count: usize, summaries: &[String]) -> (r: String)
    ensures
        r@ == reduce_user_text(kind@, since@, repo_count as nat, strs(summaries@)),
{
    let ghost ss = strs(summaries@);
    let mut joined = String::new();
    let mut i: usize = 0;
    while i < summaries.len()
        invariant
            0 <= i <= summaries@.len(),
            ss == strs(summaries@),
            joined@ == batch_sections(ss.take(i as int)),
        decreases summaries.len() - i,
    {
        assert(ss.take(i + 1).drop_last() =~= ss.take(i as int));
        assert(ss.take(i + 1).last() == summaries@[i as int]@);
        push_str(&mut joined, "### Batch ");
        push_u64(&mut joined, i as u64 + 1);
        push_str(&mut joined, " summary\n");
        push_str(&mut joined, summaries[i].as_str());
        push_str(&mut joined, "\n");
        i += 1;
    }
    assert(ss.take(ss.len() as int) =~= ss);
    let mut out = String::new();
    push_str(&mut out, "Merge the following batch summaries of ");
    push_u64(&mut out, repo_count as u64);
    push_str(&mut out, " repositories' commits \
     into ONE coherent ");
    push_str(&mut out, kind_label_of(kind));
    push_str(&mut out, " report in Markdown. Range: since ");
    push_str(&mut out, since);
    push_str(&mut out, ". \
     Deduplicate repeated themes and keep the stats meaningful.\n\n");
    push_str(&mut out, joined.as_str());
    out
}

} // verus!
