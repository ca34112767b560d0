//! Diffs of untracked files: their content as a pure addition, built from
//! the file's bytes (git has no diff for a path outside the index).

use vstd::prelude::*;
use crate::text::{find, find_from, opt_str};
use crate::model::{DiffFile, DiffHunk, DiffLine, DiffLineKind, DiffLineV, DiffFileV, DiffHunkV, seq_view};
use crate::utf8::{utf8_lossy, string_from_utf8_lossy};
use crate::conflict::{binary_bytes, looks_binary};
use crate::text::{to_chars, string_of_range, find_char};

verus! {

/// Above this many bytes an untracked file is shown as binary.
pub const MAX_SYNTH_BYTES: u64 = 2 * 1024 * 1024;

/// The added lines of a text, numbered from `n + 1`: one per `\n`, and a
/// last line without newline (flagged) when the text does not end in one.
pub open spec fn added_lines(t: Seq<char>, n: nat) -> Seq<DiffLineV>
    decreases t.len(),
{
    if t.len() == 0 {
        Seq::<DiffLineV>::empty()
    } else {
        match find(t, seq!['\n']) {
            Some(i) => {
                proof {
                    crate::text::lemma_find_occurs(t, seq!['\n']);
                }
                seq![
                DiffLineV {
                    content: t.take(i),
                    left_no: None,
                    right_no: Some((n + 1) as u32),
                    kind: DiffLineKind::Add,
                    no_eol: false,
                },
            ] + added_lines(t.skip(i + 1), n + 1)
            },
            None => seq![
                DiffLineV {
                    content: t,
                    left_no: None,
                    right_no: Some((n + 1) as u32),
                    kind: DiffLineKind::Add,
                    no_eol: true,
                },
            ],
        }
    }
}

proof fn lemma_added_len(t: Seq<char>, n: nat)
    ensures
        added_lines(t, n).len() <= t.len(),
    decreases t.len(),
{
    if t.len() > 0 {
        if let Some(i) = find(t, seq!['\n']) {
            crate::text::lemma_find_occurs(t, seq!['\n']);
            lemma_added_len(t.skip(i + 1), n + 1);
        }
    }
}

/// No newline before `m` leaves the first newline search where it was.
proof fn lemma_find_nl(r: Seq<char>, i: int, m: int)
    requires
        0 <= i <= m <= r.len(),
        forall|j: int| i <= j < m ==> r[j] != '\n',
    ensures
        find_from(r, seq!['\n'], i) == find_from(r, seq!['\n'], m),
    decreases m - i,
{
    if i < m {
        if crate::text::occurs_at(r, seq!['\n'], i) {
            assert(r.subrange(i, i + 1)[0] == seq!['\n'][0]);
            assert(r.subrange(i, i + 1)[0] == r[i]);
        }
        lemma_find_nl(r, i + 1, m);
    }
}

/// The diff of an untracked file: binary (no hunks) when oversized or
/// when its first 8000 bytes hold a NUL; otherwise one hunk adding every
/// line of its (lossily decoded) text, none for an empty file.
pub open spec fn untracked_spec(path: Seq<char>, oversized: bool, bytes: Seq<u8>) -> DiffFileV {
    if oversized || binary_bytes(bytes) {
        DiffFileV { old_path: None, new_path: Some(path), similarity: None, binary: true, hunks: Seq::empty() }
    } else {
        let ls = added_lines(utf8_lossy(bytes), 0);
        DiffFileV {
            old_path: None,
            new_path: Some(path),
            similarity: None,
            binary: false,
            hunks: if ls.len() == 0 {
                Seq::<DiffHunkV>::empty()
            } else {
                seq![
                    DiffHunkV {
                        old_start: 0,
                        old_count: 0,
                        new_start: 1,
                        new_count: ls.len() as u32,
                        header: Seq::<char>::empty(),
                        lines: ls,
                    },
                ]
            },
        }
    }
}

/// Builds the diff of an untracked file from its bytes (`oversized` when
/// the file is above `MAX_SYNTH_BYTES`; its bytes are then not read).
pub fn synthesize_untracked(path: &str, oversized: bool, bytes: &[u8]) -> (r: DiffFile)
    requires
        bytes@.len() < u32::MAX,
    ensures
        r@ == untracked_spec(path@, oversized, bytes@),
{
    if oversized || looks_binary(bytes) {
        let r = DiffFile {
            old_path: None,
            new_path: Some(path.to_string()),
            similarity: None,
            binary: true,
            hunks: Vec::new(),
        };
        assert(seq_view(r.hunks@) =~= Seq::<DiffHunkV>::empty());
        return r;
    }
    let text = string_from_utf8_lossy(bytes);
    let t = to_chars(text.as_str());
    let ghost all = added_lines(t@, 0);
    let mut lines: Vec<DiffLine> = Vec::new();
    let mut pos: usize = 0;
    proof {
        lemma_added_len(t@, 0);
        assert(t@.skip(0) =~= t@);
    }
    while pos < t.len()
        invariant
            0 <= pos <= t@.len(),
            t@.len() < u32::MAX,
            lines@.len() <= pos,
            seq_view(lines@) + added_lines(t@.skip(pos as int), lines@.len() as nat) == all,
        decreases t.len() - pos,
    {
        let ghost r = t@.skip(pos as int);
        let mut k: usize = pos;
        while k < t.len() && t[k] != '\n'
            invariant
                pos <= k <= t@.len(),
                forall|j: int| pos <= j < k ==> t@[j] != '\n',
            decreases t.len() - k,
        {
            k += 1;
        }
        proof {
            lemma_find_nl(r, 0, (k - pos) as int);
        }
        let n = lines.len() as u32;
        let ghost before = lines@;
        if k < t.len() {
            let content = string_of_range(t.as_slice(), pos, k);
            let l = DiffLine { content, left_no: None, right_no: Some(n + 1), kind: DiffLineKind::Add, no_eol: false };
            proof {
                assert(r.subrange((k - pos) as int, (k - pos) as int + 1) =~= seq!['\n']);
                assert(find(r, seq!['\n']) == Some((k - pos) as int));
                assert(t@.subrange(pos as int, k as int) =~= r.take((k - pos) as int));
                assert(r.skip((k - pos) as int + 1) =~= t@.skip(k + 1));
            }
            lines.push(l);
            proof {
                crate::model::lemma_seq_view_push(before, l);
                assert(seq_view(lines@) + added_lines(t@.skip(k + 1), lines@.len() as nat)
                    =~= seq_view(before) + added_lines(r, before.len() as nat));
            }
            pos = k + 1;
        } else {
            let content = string_of_range(t.as_slice(), pos, t.len());
            let l = DiffLine { content, left_no: None, right_no: Some(n + 1), kind: DiffLineKind::Add, no_eol: true };
            proof {
                assert(find(r, seq!['\n']) is None);
                assert(t@.subrange(pos as int, t@.len() as int) =~= r);
            }
            lines.push(l);
            proof {
                crate::model::lemma_seq_view_push(before, l);
                assert(t@.skip(t@.len() as int) =~= Seq::<char>::empty());
                assert(seq_view(lines@) + added_lines(t@.skip(t@.len() as int), lines@.len() as nat)
                    =~= seq_view(before) + added_lines(r, before.len() as nat));
            }
            pos = t.len();
        }
    }
    assert(t@.skip(t@.len() as int) =~= Seq::<char>::empty());
    assert(seq_view(lines@) + Seq::<DiffLineV>::empty() =~= seq_view(lines@));
    let count = lines.len() as u32;
    let mut hunks: Vec<DiffHunk> = Vec::new();
    if count > 0 {
        hunks.push(DiffHunk { old_start: 0, old_count: 0, new_start: 1, new_count: count, header: String::new(), lines });
    }
    let r = DiffFile { old_path: None, new_path: Some(path.to_string()), similarity: None, binary: false, hunks };
    assert(seq_view(r.hunks@) =~= untracked_spec(path@, oversized, bytes@).hunks);
    r
}

} // verus!
