//! Character-sequence toolkit shared by the parsers: splitting, prefix
//! tests, searching, trimming and decimal number parsing, each with its
//! model over `Seq<char>`.

use vstd::prelude::*;

verus! {

// =====================
// Models
// =====================

/// `s.split(sep)` of std: the pieces between occurrences of `sep`
/// (always at least one piece; adjacent separators give empty pieces).
pub open spec fn split(s: Seq<char>, sep: char) -> Seq<Seq<char>>
    decreases s.len(),
{
    if s.len() == 0 {
        seq![Seq::<char>::empty()]
    } else {
        let p = split(s.drop_last(), sep);
        if s.last() == sep {
            p.push(Seq::<char>::empty())
        } else {
            p.update(p.len() - 1, p.last().push(s.last()))
        }
    }
}

/// Joining pieces back with one separator between neighbours.
pub open spec fn join(pieces: Seq<Seq<char>>, sep: char) -> Seq<char>
    decreases pieces.len(),
{
    if pieces.len() == 0 {
        Seq::<char>::empty()
    } else if pieces.len() == 1 {
        pieces[0]
    } else {
        join(pieces.drop_last(), sep).push(sep) + pieces.last()
    }
}

/// Drops one trailing `'\r'`.
pub open spec fn strip_cr(s: Seq<char>) -> Seq<char> {
    if s.len() > 0 && s.last() == '\r' {
        s.drop_last()
    } else {
        s
    }
}

/// `s.lines()` of std: split at `'\n'`, no phantom empty line after a final
/// `'\n'`, and one `'\r'` before each `'\n'` removed.
pub open spec fn lines(s: Seq<char>) -> Seq<Seq<char>> {
    let pieces = split(s, '\n');
    let n: int = if pieces.last().len() == 0 {
        pieces.len() - 1
    } else {
        pieces.len() as int
    };
    Seq::new(
        n as nat,
        |i: int|
            if i + 1 < pieces.len() {
                strip_cr(pieces[i])
            } else {
                pieces[i]
            },
    )
}

/// `s` begins with `p`.
pub open spec fn starts_with(s: Seq<char>, p: Seq<char>) -> bool {
    p.len() <= s.len() && s.subrange(0, p.len() as int) == p
}

/// `s` ends with `p`.
pub open spec fn ends_with(s: Seq<char>, p: Seq<char>) -> bool {
    p.len() <= s.len() && s.subrange(s.len() - p.len(), s.len() as int) == p
}

/// `p` occurs in `s` at position `i`.
pub open spec fn occurs_at(s: Seq<char>, p: Seq<char>, i: int) -> bool {
    0 <= i && i + p.len() <= s.len() && s.subrange(i, i + p.len()) == p
}

/// First position at or after `i` where `p` occurs in `s`.
pub open spec fn find_from(s: Seq<char>, p: Seq<char>, i: int) -> Option<int>
    decreases s.len() + 1 - i,
{
    if i < 0 || i + p.len() > s.len() {
        None
    } else if occurs_at(s, p, i) {
        Some(i)
    } else {
        find_from(s, p, i + 1)
    }
}

/// `s.find(p)` of std: first position where `p` occurs.
pub open spec fn find(s: Seq<char>, p: Seq<char>) -> Option<int> {
    find_from(s, p, 0)
}

/// `s.contains(p)` of std.
pub open spec fn contains(s: Seq<char>, p: Seq<char>) -> bool {
    find(s, p) is Some
}

/// `s.split_once(c)` of std: the text before and after the first `c`.
pub open spec fn split_once(s: Seq<char>, c: char) -> Option<(Seq<char>, Seq<char>)> {
    match find(s, seq![c]) {
        Some(i) => Some((s.take(i), s.skip(i + 1))),
        None => None,
    }
}

/// Last position at or before `i` (exclusive end `i`) where `c` occurs.
pub open spec fn rfind_char_before(s: Seq<char>, c: char, i: int) -> Option<int>
    decreases i,
{
    if i <= 0 || i > s.len() {
        None
    } else if s[i - 1] == c {
        Some(i - 1)
    } else {
        rfind_char_before(s, c, i - 1)
    }
}

/// `s.rsplit_once(c)` of std: the text before and after the last `c`.
pub open spec fn rsplit_once(s: Seq<char>, c: char) -> Option<(Seq<char>, Seq<char>)> {
    match rfind_char_before(s, c, s.len() as int) {
        Some(i) => Some((s.take(i), s.skip(i + 1))),
        None => None,
    }
}

/// Unicode `White_Space` (what `char::is_whitespace` of std tests).
pub open spec fn is_ws(c: char) -> bool {
    ||| ('\u{9}' <= c && c <= '\u{d}')
    ||| c == ' '
    ||| c == '\u{85}'
    ||| c == '\u{a0}'
    ||| c == '\u{1680}'
    ||| ('\u{2000}' <= c && c <= '\u{200a}')
    ||| c == '\u{2028}'
    ||| c == '\u{2029}'
    ||| c == '\u{202f}'
    ||| c == '\u{205f}'
    ||| c == '\u{3000}'
}

/// `s.trim_start()` of std.
pub open spec fn trim_start(s: Seq<char>) -> Seq<char>
    decreases s.len(),
{
    if s.len() > 0 && is_ws(s[0]) {
        trim_start(s.skip(1))
    } else {
        s
    }
}

/// `s.trim_end()` of std.
pub open spec fn trim_end(s: Seq<char>) -> Seq<char>
    decreases s.len(),
{
    if s.len() > 0 && is_ws(s.last()) {
        trim_end(s.drop_last())
    } else {
        s
    }
}

/// `s.trim()` of std.
pub open spec fn trim(s: Seq<char>) -> Seq<char> {
    trim_end(trim_start(s))
}

/// Pieces of `s` between whitespace characters (empty pieces included).
pub open spec fn split_ws_raw(s: Seq<char>) -> Seq<Seq<char>>
    decreases s.len(),
{
    if s.len() == 0 {
        seq![Seq::<char>::empty()]
    } else {
        let p = split_ws_raw(s.drop_last());
        if is_ws(s.last()) {
            p.push(Seq::<char>::empty())
        } else {
            p.update(p.len() - 1, p.last().push(s.last()))
        }
    }
}

/// `s.split_whitespace()` of std: the non-empty whitespace-separated words.
pub open spec fn words(s: Seq<char>) -> Seq<Seq<char>> {
    split_ws_raw(s).filter(|w: Seq<char>| w.len() > 0)
}

/// An ASCII decimal digit.
pub open spec fn is_digit(c: char) -> bool {
    '0' <= c && c <= '9'
}

pub open spec fn all_digits(s: Seq<char>) -> bool {
    forall|i: int| 0 <= i < s.len() ==> is_digit(#[trigger] s[i])
}

/// Decimal value of a digit string.
pub open spec fn dec_value(s: Seq<char>) -> nat
    decreases s.len(),
{
    if s.len() == 0 {
        0
    } else {
        dec_value(s.drop_last()) * 10 + ((s.last() as int) - ('0' as int)) as nat
    }
}

/// The digits after an optional leading `'+'`.
pub open spec fn unsigned_digits(s: Seq<char>) -> Seq<char> {
    if s.len() > 0 && s[0] == '+' {
        s.skip(1)
    } else {
        s
    }
}

/// `s.parse::<u32>()` of std.
pub open spec fn parse_u32(s: Seq<char>) -> Option<u32> {
    let d = unsigned_digits(s);
    if d.len() > 0 && all_digits(d) && dec_value(d) <= u32::MAX {
        Some(dec_value(d) as u32)
    } else {
        None
    }
}

/// `s.parse::<u64>()` of std.
pub open spec fn parse_u64(s: Seq<char>) -> Option<u64> {
    let d = unsigned_digits(s);
    if d.len() > 0 && all_digits(d) && dec_value(d) <= u64::MAX {
        Some(dec_value(d) as u64)
    } else {
        None
    }
}

/// `s.parse::<usize>()` of std.
pub open spec fn parse_usize(s: Seq<char>) -> Option<usize> {
    let d = unsigned_digits(s);
    if d.len() > 0 && all_digits(d) && dec_value(d) <= usize::MAX {
        Some(dec_value(d) as usize)
    } else {
        None
    }
}

/// `s.parse::<i64>()` of std.
pub open spec fn parse_i64(s: Seq<char>) -> Option<i64> {
    if s.len() > 0 && s[0] == '-' {
        let d = s.skip(1);
        if d.len() > 0 && all_digits(d) && dec_value(d) <= 0x8000_0000_0000_0000 {
            Some((0 - dec_value(d)) as i64)
        } else {
            None
        }
    } else {
        let d = unsigned_digits(s);
        if d.len() > 0 && all_digits(d) && dec_value(d) <= i64::MAX {
            Some(dec_value(d) as i64)
        } else {
            None
        }
    }
}

/// Decimal rendering of a number (no sign, no leading zeros).
pub open spec fn dec_string(n: nat) -> Seq<char>
    decreases n,
{
    if n < 10 {
        seq![(n + ('0' as nat)) as char]
    } else {
        dec_string(n / 10).push(((n % 10) + ('0' as nat)) as char)
    }
}

/// Views of a vector of character vectors.
pub open spec fn views(v: Seq<Vec<char>>) -> Seq<Seq<char>> {
    v.map_values(|x: Vec<char>| x@)
}

/// Views of a vector of strings.
pub open spec fn strs(v: Seq<String>) -> Seq<Seq<char>> {
    v.map_values(|x: String| x@)
}

/// Views of an optional string.
pub open spec fn opt_str(o: Option<String>) -> Option<Seq<char>> {
    match o {
        Some(s) => Some(s@),
        None => None,
    }
}

/// `None` for empty text, the text otherwise.
pub open spec fn non_empty(s: Seq<char>) -> Option<Seq<char>> {
    if s.len() == 0 {
        None
    } else {
        Some(s)
    }
}

/// `s.split_once(p)` of std with a multi-character pattern.
pub open spec fn split_once_seq(s: Seq<char>, p: Seq<char>) -> Option<(Seq<char>, Seq<char>)> {
    match find(s, p) {
        Some(i) => Some((s.take(i), s.skip(i + p.len()))),
        None => None,
    }
}

/// `s.strip_prefix(p)` of std.
pub open spec fn strip_prefix(s: Seq<char>, p: Seq<char>) -> Option<Seq<char>> {
    if starts_with(s, p) {
        Some(s.skip(p.len() as int))
    } else {
        None
    }
}

/// `s.strip_suffix(p)` of std.
pub open spec fn strip_suffix(s: Seq<char>, p: Seq<char>) -> Option<Seq<char>> {
    if ends_with(s, p) {
        Some(s.take(s.len() - p.len()))
    } else {
        None
    }
}

/// `s.trim_start_matches(c)` of std.
pub open spec fn trim_start_char(s: Seq<char>, c: char) -> Seq<char>
    decreases s.len(),
{
    if s.len() > 0 && s[0] == c {
        trim_start_char(s.skip(1), c)
    } else {
        s
    }
}

/// `s.trim_end_matches(c)` of std.
pub open spec fn trim_end_char(s: Seq<char>, c: char) -> Seq<char>
    decreases s.len(),
{
    if s.len() > 0 && s.last() == c {
        trim_end_char(s.drop_last(), c)
    } else {
        s
    }
}

/// `s.split(p)` of std with a non-empty multi-character pattern.
pub open spec fn split_str(s: Seq<char>, p: Seq<char>) -> Seq<Seq<char>>
    decreases s.len(),
{
    if p.len() == 0 {
        seq![s]
    } else {
        match find(s, p) {
            Some(i) => if 0 <= i && i + p.len() <= s.len() {
                seq![s.take(i)] + split_str(s.skip(i + p.len()), p)
            } else {
                seq![s]
            },
            None => seq![s],
        }
    }
}

/// An ASCII character (one byte in UTF-8).
pub open spec fn is_ascii_char(c: char) -> bool {
    (c as u32) < 128
}

// =====================
// Lemmas
// =====================

pub proof fn lemma_split_len(s: Seq<char>, sep: char)
    ensures
        split(s, sep).len() >= 1,
    decreases s.len(),
{
    if s.len() > 0 {
        lemma_split_len(s.drop_last(), sep);
    }
}

pub proof fn lemma_split_ws_raw_len(s: Seq<char>)
    ensures
        split_ws_raw(s).len() >= 1,
    decreases s.len(),
{
    if s.len() > 0 {
        lemma_split_ws_raw_len(s.drop_last());
    }
}

/// Splitting and joining with the same separator gives the text back.
pub proof fn lemma_join_split(s: Seq<char>, sep: char)
    ensures
        join(split(s, sep), sep) == s,
    decreases s.len(),
{
    if s.len() > 0 {
        let t = s.drop_last();
        lemma_join_split(t, sep);
        lemma_split_len(t, sep);
        let p = split(t, sep);
        if s.last() == sep {
            let q = p.push(Seq::<char>::empty());
            assert(q.drop_last() == p);
            assert(join(q, sep) == join(p, sep).push(sep) + Seq::<char>::empty());
            assert(s == t.push(sep));
        } else {
            let q = p.update(p.len() - 1, p.last().push(s.last()));
            if p.len() == 1 {
                assert(join(q, sep) == q[0]);
                assert(join(p, sep) == p[0]);
                assert(s == t.push(s.last()));
            } else {
                assert(q.drop_last() == p.drop_last());
                assert(join(q, sep) == join(p.drop_last(), sep).push(sep) + p.last().push(
                    s.last(),
                ));
                assert(join(p, sep) == join(p.drop_last(), sep).push(sep) + p.last());
                assert(join(q, sep) == (join(p.drop_last(), sep).push(sep) + p.last()).push(
                    s.last(),
                ));
                assert(s == t.push(s.last()));
            }
        }
    }
}

/// Appending text without the separator extends the last piece.
pub proof fn lemma_split_append_free(s: Seq<char>, b: Seq<char>, sep: char)
    requires
        !b.contains(sep),
    ensures
        split(s + b, sep) == split(s, sep).update(split(s, sep).len() - 1, split(s, sep).last() + b),
    decreases b.len(),
{
    lemma_split_len(s, sep);
    let p = split(s, sep);
    if b.len() == 0 {
        assert(s + b =~= s);
        assert(p.last() + b =~= p.last());
        assert(p.update(p.len() - 1, p.last()) =~= p);
    } else {
        let c = b.drop_last();
        assert(!c.contains(sep)) by {
            assert forall|i: int| 0 <= i < c.len() implies c[i] != sep by {
                assert(c[i] == b[i]);
            }
        }
        assert(b.last() != sep) by {
            assert(b[b.len() - 1] == b.last());
        }
        lemma_split_append_free(s, c, sep);
        assert((s + b).drop_last() =~= s + c);
        assert((s + b).last() == b.last());
        assert((p.last() + c).push(b.last()) =~= p.last() + b);
        assert(split(s + b, sep) =~= p.update(p.len() - 1, p.last() + b));
    }
}

/// Joining pieces that hold no separator and splitting again gives the
/// pieces back.
pub proof fn lemma_split_join(pieces: Seq<Seq<char>>, sep: char)
    requires
        pieces.len() >= 1,
        forall|i: int| 0 <= i < pieces.len() ==> !(#[trigger] pieces[i]).contains(sep),
    ensures
        split(join(pieces, sep), sep) == pieces,
    decreases pieces.len(),
{
    let e = Seq::<char>::empty();
    if pieces.len() == 1 {
        lemma_split_append_free(e, pieces[0], sep);
        assert(e + pieces[0] =~= pieces[0]);
        assert(split(e, sep) =~= seq![e]);
        assert(seq![e].update(0, e + pieces[0]) =~= pieces);
    } else {
        let init = pieces.drop_last();
        lemma_split_join(init, sep);
        let j = join(init, sep).push(sep);
        assert(j.drop_last() =~= join(init, sep));
        assert(split(j, sep) == init.push(e));
        assert(!pieces[pieces.len() - 1].contains(sep));
        lemma_split_append_free(j, pieces.last(), sep);
        assert(e + pieces.last() =~= pieces.last());
        assert(init.push(e).update(init.len() as int, pieces.last()) =~= pieces);
    }
}

/// No piece of a split contains the separator.
pub proof fn lemma_split_pieces_free(s: Seq<char>, sep: char)
    ensures
        forall|i: int, j: int|
            0 <= i < split(s, sep).len() && 0 <= j < split(s, sep)[i].len() ==> split(
                s,
                sep,
            )[i][j] != sep,
    decreases s.len(),
{
    if s.len() > 0 {
        lemma_split_pieces_free(s.drop_last(), sep);
        lemma_split_len(s.drop_last(), sep);
    }
}

proof fn lemma_dec_value_push(s: Seq<char>, c: char)
    ensures
        dec_value(s.push(c)) == dec_value(s) * 10 + ((c as int) - ('0' as int)) as nat,
{
    assert(s.push(c).drop_last() == s);
}

proof fn lemma_find_from_char_bound(s: Seq<char>, p: Seq<char>, i: int)
    ensures
        find_from(s, p, i) matches Some(k) ==> i <= k && occurs_at(s, p, k),
    decreases s.len() + 1 - i,
{
    if !(i < 0 || i + p.len() > s.len()) && !occurs_at(s, p, i) {
        lemma_find_from_char_bound(s, p, i + 1);
    }
}

pub proof fn lemma_find_occurs(s: Seq<char>, p: Seq<char>)
    ensures
        find(s, p) matches Some(k) ==> 0 <= k && k + p.len() <= s.len() && s.subrange(
            k,
            k + p.len(),
        ) == p,
{
    lemma_find_from_char_bound(s, p, 0);
}

// =====================
// Executable helpers
// =====================

/// `String::push` (std): appends one character.
#[verifier::external_body]
pub fn push_char(s: &mut String, c: char)
    ensures
        final(s)@ == old(s)@.push(c),
{
    s.push(c);
}

/// The characters of `s`, in order.
pub fn to_chars(s: &str) -> (r: Vec<char>)
    ensures
        r@ == s@,
{
    let mut r: Vec<char> = Vec::new();
    for c in it: s.chars()
        invariant
            r@ == it.seq().take(it.index() as int),
    {
        r.push(c);
    }
    r
}

/// A `String` holding `v[lo..hi]`.
pub fn string_of_range(v: &[char], lo: usize, hi: usize) -> (r: String)
    requires
        lo <= hi <= v@.len(),
    ensures
        r@ == v@.subrange(lo as int, hi as int),
{
    let mut r = String::new();
    let mut i: usize = lo;
    while i < hi
        invariant
            lo <= i <= hi <= v@.len(),
            r@ == v@.subrange(lo as int, i as int),
        decreases hi - i,
    {
        push_char(&mut r, v[i]);
        assert(v@.subrange(lo as int, i + 1) == v@.subrange(lo as int, i as int).push(v@[i as int]));
        i += 1;
    }
    r
}

/// A `String` holding all of `v`.
pub fn string_of(v: &[char]) -> (r: String)
    ensures
        r@ == v@,
{
    let r = string_of_range(v, 0, v.len());
    assert(v@.subrange(0, v@.len() as int) == v@);
    r
}

/// A copy of `v[lo..hi]`.
pub fn slice_range(v: &[char], lo: usize, hi: usize) -> (r: Vec<char>)
    requires
        lo <= hi <= v@.len(),
    ensures
        r@ == v@.subrange(lo as int, hi as int),
{
    let mut r: Vec<char> = Vec::new();
    let mut i: usize = lo;
    while i < hi
        invariant
            lo <= i <= hi <= v@.len(),
            r@ == v@.subrange(lo as int, i as int),
        decreases hi - i,
    {
        r.push(v[i]);
        assert(v@.subrange(lo as int, i + 1) == v@.subrange(lo as int, i as int).push(v@[i as int]));
        i += 1;
    }
    r
}

/// `a == b` on character sequences.
pub fn eq_chars(a: &[char], b: &[char]) -> (r: bool)
    ensures
        r == (a@ == b@),
{
    if a.len() != b.len() {
        return false;
    }
    let mut i: usize = 0;
    while i < a.len()
        invariant
            a@.len() == b@.len(),
            0 <= i <= a@.len(),
            forall|j: int| 0 <= j < i ==> a@[j] == b@[j],
        decreases a.len() - i,
    {
        if a[i] != b[i] {
            return false;
        }
        i += 1;
    }
    assert(a@ =~= b@);
    true
}

/// Whether `s` begins with `p`.
pub fn has_prefix(s: &[char], p: &[char]) -> (r: bool)
    ensures
        r == starts_with(s@, p@),
{
    if p.len() > s.len() {
        return false;
    }
    let mut i: usize = 0;
    while i < p.len()
        invariant
            p@.len() <= s@.len(),
            0 <= i <= p@.len(),
            forall|j: int| 0 <= j < i ==> s@[j] == p@[j],
        decreases p.len() - i,
    {
        if s[i] != p[i] {
            assert(s@.subrange(0, p@.len() as int)[i as int] != p@[i as int]);
            return false;
        }
        i += 1;
    }
    assert(s@.subrange(0, p@.len() as int) =~= p@);
    true
}

/// Whether `s` ends with `p`.
pub fn has_suffix(s: &[char], p: &[char]) -> (r: bool)
    ensures
        r == ends_with(s@, p@),
{
    if p.len() > s.len() {
        return false;
    }
    let off: usize = s.len() - p.len();
    let mut i: usize = 0;
    while i < p.len()
        invariant
            p@.len() <= s@.len(),
            off + p@.len() == s@.len(),
            s@.len() <= usize::MAX,
            0 <= i <= p@.len(),
            forall|j: int| 0 <= j < i ==> s@[off + j] == p@[j],
        decreases p.len() - i,
    {
        if s[off + i] != p[i] {
            assert(s@.subrange(off as int, s@.len() as int)[i as int] != p@[i as int]);
            return false;
        }
        i += 1;
    }
    assert(s@.subrange(off as int, s@.len() as int) =~= p@);
    true
}

/// Whether `p` occurs in `s` at position `i`.
pub fn match_at(s: &[char], p: &[char], i: usize) -> (r: bool)
    ensures
        r == occurs_at(s@, p@, i as int),
{
    if i > s.len() || p.len() > s.len() - i {
        return false;
    }
    let mut k: usize = 0;
    while k < p.len()
        invariant
            i + p@.len() <= s@.len(),
            s@.len() <= usize::MAX,
            0 <= k <= p@.len(),
            forall|j: int| 0 <= j < k ==> s@[i + j] == p@[j],
        decreases p.len() - k,
    {
        if s[i + k] != p[k] {
            assert(s@.subrange(i as int, i + p@.len())[k as int] != p@[k as int]);
            return false;
        }
        k += 1;
    }
    assert(s@.subrange(i as int, i + p@.len()) =~= p@);
    true
}

/// First position at or after `from` where `p` occurs in `s`.
pub fn find_seq_from(s: &[char], p: &[char], from: usize) -> (r: Option<usize>)
    ensures
        match r {
            Some(k) => find_from(s@, p@, from as int) == Some(k as int),
            None => find_from(s@, p@, from as int) is None,
        },
{
    let mut i: usize = from;
    while i <= s.len() && p.len() <= s.len() - i
        invariant
            from <= i,
            find_from(s@, p@, from as int) == find_from(s@, p@, i as int),
        decreases s.len() + 1 - i,
    {
        if match_at(s, p, i) {
            return Some(i);
        }
        if i == s.len() {
            assert(find_from(s@, p@, i as int) == find_from(s@, p@, i + 1));
            assert(find_from(s@, p@, i + 1) is None);
            return None;
        }
        i += 1;
    }
    None
}

/// `s.find(p)`: first position where `p` occurs.
pub fn find_seq(s: &[char], p: &[char]) -> (r: Option<usize>)
    ensures
        match r {
            Some(k) => find(s@, p@) == Some(k as int),
            None => find(s@, p@) is None,
        },
{
    find_seq_from(s, p, 0)
}

/// `s.find(c)`: first position of the character `c`.
pub fn find_char(s: &[char], c: char) -> (r: Option<usize>)
    ensures
        match r {
            Some(k) => find(s@, seq![c]) == Some(k as int),
            None => find(s@, seq![c]) is None,
        },
{
    let p = vec![c];
    assert(p@ == seq![c]);
    find_seq(s, p.as_slice())
}

/// `s.contains(p)`.
pub fn contains_seq(s: &[char], p: &[char]) -> (r: bool)
    ensures
        r == contains(s@, p@),
{
    find_seq(s, p).is_some()
}

/// `s.split_once(c)`.
pub fn split_once_char(s: &[char], c: char) -> (r: Option<(Vec<char>, Vec<char>)>)
    ensures
        match r {
            Some((a, b)) => split_once(s@, c) == Some((a@, b@)),
            None => split_once(s@, c) is None,
        },
{
    let n: usize = s.len();
    match find_char(s, c) {
        Some(k) => {
            proof {
                lemma_find_occurs(s@, seq![c]);
                assert(seq![c].len() == 1);
                assert(k + 1 <= s@.len());
            }
            let a = slice_range(s, 0, k);
            let b = slice_range(s, k + 1, s.len());
            assert(a@ == s@.take(k as int));
            assert(b@ == s@.skip(k + 1));
            Some((a, b))
        },
        None => None,
    }
}

/// `s.rsplit_once(c)`.
pub fn rsplit_once_char(s: &[char], c: char) -> (r: Option<(Vec<char>, Vec<char>)>)
    ensures
        match r {
            Some((a, b)) => rsplit_once(s@, c) == Some((a@, b@)),
            None => rsplit_once(s@, c) is None,
        },
{
    let mut i: usize = s.len();
    while i > 0
        invariant
            i <= s@.len(),
            rfind_char_before(s@, c, s@.len() as int) == rfind_char_before(s@, c, i as int),
        decreases i,
    {
        if s[i - 1] == c {
            let a = slice_range(s, 0, i - 1);
            let b = slice_range(s, i, s.len());
            assert(a@ == s@.take(i - 1));
            assert(b@ == s@.skip(i as int));
            return Some((a, b));
        }
        i -= 1;
    }
    None
}

/// `s.split(sep)`.
pub fn split_chars(s: &[char], sep: char) -> (r: Vec<Vec<char>>)
    ensures
        views(r@) == split(s@, sep),
{
    let mut r: Vec<Vec<char>> = Vec::new();
    let mut cur: Vec<char> = Vec::new();
    let mut i: usize = 0;
    assert(s@.take(0) =~= Seq::<char>::empty());
    assert(views(r@).push(cur@) =~= split(s@.take(0), sep));
    while i < s.len()
        invariant
            0 <= i <= s@.len(),
            views(r@).push(cur@) == split(s@.take(i as int), sep),
        decreases s.len() - i,
    {
        let ghost before = views(r@);
        let ghost t = s@.take(i + 1);
        assert(t.drop_last() == s@.take(i as int));
        assert(t.last() == s@[i as int]);
        if s[i] == sep {
            r.push(cur);
            cur = Vec::new();
            assert(views(r@) =~= before.push(r@.last()@));
            assert(views(r@).push(cur@) =~= split(t, sep));
        } else {
            let ghost old_cur = cur@;
            cur.push(s[i]);
            assert(views(r@).push(cur@) =~= before.push(old_cur).update(
                before.len() as int,
                old_cur.push(s@[i as int]),
            ));
        }
        i += 1;
    }
    let ghost before = views(r@);
    r.push(cur);
    assert(views(r@) =~= before.push(r@.last()@));
    assert(s@.take(s@.len() as int) == s@);
    r
}

/// Splits at whitespace (empty pieces included).
fn split_ws_chars(s: &[char]) -> (r: Vec<Vec<char>>)
    ensures
        views(r@) == split_ws_raw(s@),
{
    let mut r: Vec<Vec<char>> = Vec::new();
    let mut cur: Vec<char> = Vec::new();
    let mut i: usize = 0;
    assert(s@.take(0) =~= Seq::<char>::empty());
    assert(views(r@).push(cur@) =~= split_ws_raw(s@.take(0)));
    while i < s.len()
        invariant
            0 <= i <= s@.len(),
            views(r@).push(cur@) == split_ws_raw(s@.take(i as int)),
        decreases s.len() - i,
    {
        let ghost before = views(r@);
        let ghost t = s@.take(i + 1);
        assert(t.drop_last() == s@.take(i as int));
        assert(t.last() == s@[i as int]);
        if is_whitespace(s[i]) {
            r.push(cur);
            cur = Vec::new();
            assert(views(r@) =~= before.push(r@.last()@));
            assert(views(r@).push(cur@) =~= split_ws_raw(t));
        } else {
            let ghost old_cur = cur@;
            cur.push(s[i]);
            assert(views(r@).push(cur@) =~= before.push(old_cur).update(
                before.len() as int,
                old_cur.push(s@[i as int]),
            ));
        }
        i += 1;
    }
    let ghost before = views(r@);
    r.push(cur);
    assert(views(r@) =~= before.push(r@.last()@));
    assert(s@.take(s@.len() as int) == s@);
    r
}

/// Keeps the non-empty pieces.
pub fn drop_empty(v: Vec<Vec<char>>) -> (r: Vec<Vec<char>>)
    ensures
        views(r@) == views(v@).filter(|w: Seq<char>| w.len() > 0),
{
    let ghost pred = |w: Seq<char>| w.len() > 0;
    let mut r: Vec<Vec<char>> = Vec::new();
    let mut i: usize = 0;
    let n: usize = v.len();
    reveal(Seq::filter);
    assert(views(v@).take(0).filter(pred) =~= Seq::<Seq<char>>::empty());
    while i < n
        invariant
            n == v@.len(),
            0 <= i <= n,
            pred == (|w: Seq<char>| w.len() > 0),
            views(r@) == views(v@).take(i as int).filter(pred),
        decreases n - i,
    {
        let ghost before = views(r@);
        assert(views(v@).take(i + 1).drop_last() =~= views(v@).take(i as int));
        assert(views(v@).take(i + 1).last() == v@[i as int]@);
        reveal(Seq::filter);
        assert(views(v@).take(i + 1).filter(pred) == (if pred(v@[i as int]@) {
            views(v@).take(i as int).filter(pred).push(v@[i as int]@)
        } else {
            views(v@).take(i as int).filter(pred)
        }));
        if v[i].len() > 0 {
            let w = slice_range(v[i].as_slice(), 0, v[i].len());
            assert(w@ =~= v@[i as int]@);
            r.push(w);
            assert(views(r@) =~= before.push(v@[i as int]@));
        } else {
            assert(!pred(v@[i as int]@));
        }
        assert(views(r@) == views(v@).take(i + 1).filter(pred));
        i += 1;
    }
    assert(views(v@).take(n as int) =~= views(v@));
    r
}

/// `s.split_whitespace()`.
pub fn split_words(s: &[char]) -> (r: Vec<Vec<char>>)
    ensures
        views(r@) == words(s@),
{
    drop_empty(split_ws_chars(s))
}

/// `s.lines()`.
pub fn split_lines(s: &[char]) -> (r: Vec<Vec<char>>)
    ensures
        views(r@) == lines(s@),
{
    let pieces = split_chars(s, '\n');
    proof {
        lemma_split_len(s@, '\n');
    }
    let np: usize = pieces.len();
    let n: usize = if pieces[np - 1].len() == 0 {
        np - 1
    } else {
        np
    };
    let ghost target = lines(s@);
    assert(target.len() == n);
    let mut r: Vec<Vec<char>> = Vec::new();
    let mut i: usize = 0;
    while i < n
        invariant
            np == pieces@.len(),
            views(pieces@) == split(s@, '\n'),
            n <= np,
            target == lines(s@),
            target.len() == n,
            0 <= i <= n,
            views(r@) == target.take(i as int),
        decreases n - i,
    {
        let p = &pieces[i];
        assert(p@ == split(s@, '\n')[i as int]);
        let l = if i + 1 < np && p.len() > 0 && p[p.len() - 1] == '\r' {
            slice_range(p.as_slice(), 0, p.len() - 1)
        } else {
            slice_range(p.as_slice(), 0, p.len())
        };
        assert(l@ =~= target[i as int]);
        let ghost before = views(r@);
        r.push(l);
        assert(views(r@) =~= before.push(l@));
        assert(target.take(i + 1) =~= target.take(i as int).push(target[i as int]));
        i += 1;
    }
    assert(target.take(n as int) =~= target);
    r
}

/// `char::is_whitespace`.
pub fn is_whitespace(c: char) -> (r: bool)
    ensures
        r == is_ws(c),
{
    ('\u{9}' <= c && c <= '\u{d}') || c == ' ' || c == '\u{85}' || c == '\u{a0}' || c
        == '\u{1680}' || ('\u{2000}' <= c && c <= '\u{200a}') || c == '\u{2028}' || c
        == '\u{2029}' || c == '\u{202f}' || c == '\u{205f}' || c == '\u{3000}'
}

proof fn lemma_trim_start_skip(s: Seq<char>, i: int)
    requires
        0 <= i < s.len(),
        is_ws(s[i]),
    ensures
        trim_start(s.skip(i)) == trim_start(s.skip(i + 1)),
{
    assert(s.skip(i).skip(1) =~= s.skip(i + 1));
}

proof fn lemma_trim_end_take(s: Seq<char>, i: int)
    requires
        0 < i <= s.len(),
        is_ws(s[i - 1]),
    ensures
        trim_end(s.take(i)) == trim_end(s.take(i - 1)),
{
    assert(s.take(i).drop_last() =~= s.take(i - 1));
}

/// `s.trim()`.
pub fn trim_chars(s: &[char]) -> (r: Vec<char>)
    ensures
        r@ == trim(s@),
{
    let mut lo: usize = 0;
    assert(s@.skip(0) =~= s@);
    while lo < s.len() && is_whitespace(s[lo])
        invariant
            0 <= lo <= s@.len(),
            trim_start(s@) == trim_start(s@.skip(lo as int)),
        decreases s.len() - lo,
    {
        proof {
            lemma_trim_start_skip(s@, lo as int);
        }
        lo += 1;
    }
    let ghost st = s@.skip(lo as int);
    assert(trim_start(st) == st);
    let mut hi: usize = s.len();
    assert(st.take(st.len() as int) =~= st);
    while hi > lo && is_whitespace(s[hi - 1])
        invariant
            lo <= hi <= s@.len(),
            st == s@.skip(lo as int),
            trim_end(st) == trim_end(st.take(hi - lo)),
        decreases hi,
    {
        proof {
            lemma_trim_end_take(st, hi - lo);
        }
        hi -= 1;
    }
    assert(st.take(hi - lo) =~= s@.subrange(lo as int, hi as int));
    slice_range(s, lo, hi)
}

/// `s.trim_start()`.
pub fn trim_start_chars(s: &[char]) -> (r: Vec<char>)
    ensures
        r@ == trim_start(s@),
{
    let mut lo: usize = 0;
    assert(s@.skip(0) =~= s@);
    while lo < s.len() && is_whitespace(s[lo])
        invariant
            0 <= lo <= s@.len(),
            trim_start(s@) == trim_start(s@.skip(lo as int)),
        decreases s.len() - lo,
    {
        proof {
            lemma_trim_start_skip(s@, lo as int);
        }
        lo += 1;
    }
    assert(s@.skip(lo as int) =~= s@.subrange(lo as int, s@.len() as int));
    slice_range(s, lo, s.len())
}

/// `s.trim_end()`.
pub fn trim_end_chars(s: &[char]) -> (r: Vec<char>)
    ensures
        r@ == trim_end(s@),
{
    let mut hi: usize = s.len();
    assert(s@.take(s@.len() as int) =~= s@);
    while hi > 0 && is_whitespace(s[hi - 1])
        invariant
            hi <= s@.len(),
            trim_end(s@) == trim_end(s@.take(hi as int)),
        decreases hi,
    {
        proof {
            lemma_trim_end_take(s@, hi as int);
        }
        hi -= 1;
    }
    assert(s@.take(hi as int) =~= s@.subrange(0, hi as int));
    slice_range(s, 0, hi)
}

proof fn lemma_dec_value_ge(s: Seq<char>, c: char)
    requires
        is_digit(c),
    ensures
        dec_value(s.push(c)) >= dec_value(s),
{
    lemma_dec_value_push(s, c);
}

/// Decimal value of `d` (all digits, non-empty) if it is at most `max`.
fn digits_value(d: &[char], max: u64) -> (r: Option<u64>)
    requires
        max >= 9,
    ensures
        match r {
            Some(v) => d@.len() > 0 && all_digits(d@) && dec_value(d@) <= max && v == dec_value(
                d@,
            ),
            None => !(d@.len() > 0 && all_digits(d@) && dec_value(d@) <= max),
        },
{
    if d.len() == 0 {
        return None;
    }
    let mut acc: u64 = 0;
    let mut over = false;
    let mut i: usize = 0;
    assert(d@.take(0) =~= Seq::<char>::empty());
    while i < d.len()
        invariant
            0 <= i <= d@.len(),
            max >= 9,
            all_digits(d@.take(i as int)),
            !over ==> acc == dec_value(d@.take(i as int)) && acc <= max,
            over ==> dec_value(d@.take(i as int)) > max,
        decreases d.len() - i,
    {
        let c = d[i];
        if !('0' <= c && c <= '9') {
            assert(!all_digits(d@)) by {
                assert(!is_digit(d@[i as int]));
            }
            return None;
        }
        let ghost t = d@.take(i as int);
        assert(d@.take(i + 1) =~= t.push(c));
        proof {
            lemma_dec_value_push(t, c);
        }
        let dv: u64 = (c as u32 - '0' as u32) as u64;
        if !over {
            if acc > (max - dv) / 10 {
                over = true;
                assert(acc * 10 + dv > max) by (nonlinear_arith)
                    requires
                        acc > (max - dv) / 10,
                        dv <= 9,
                        dv <= max,
                ;
            } else {
                assert(acc * 10 + dv <= max) by (nonlinear_arith)
                    requires
                        acc <= (max - dv) / 10,
                        dv <= max,
                ;
                acc = acc * 10 + dv;
            }
        } else {
            proof {
                lemma_dec_value_ge(t, c);
            }
        }
        i += 1;
    }
    assert(d@.take(d@.len() as int) =~= d@);
    if over {
        None
    } else {
        Some(acc)
    }
}

/// `s.parse::<u32>()`.
pub fn parse_u32_chars(s: &[char]) -> (r: Option<u32>)
    ensures
        r == parse_u32(s@),
{
    let start: usize = if s.len() > 0 && s[0] == '+' {
        1
    } else {
        0
    };
    let d = slice_range(s, start, s.len());
    assert(d@ =~= unsigned_digits(s@));
    match digits_value(d.as_slice(), 0xFFFF_FFFF) {
        Some(v) => Some(v as u32),
        None => None,
    }
}

/// `s.parse::<u64>()`.
pub fn parse_u64_chars(s: &[char]) -> (r: Option<u64>)
    ensures
        r == parse_u64(s@),
{
    let start: usize = if s.len() > 0 && s[0] == '+' {
        1
    } else {
        0
    };
    let d = slice_range(s, start, s.len());
    assert(d@ =~= unsigned_digits(s@));
    digits_value(d.as_slice(), 0xFFFF_FFFF_FFFF_FFFF)
}

/// `s.parse::<usize>()`.
pub fn parse_usize_chars(s: &[char]) -> (r: Option<usize>)
    ensures
        r == parse_usize(s@),
{
    let start: usize = if s.len() > 0 && s[0] == '+' {
        1
    } else {
        0
    };
    let d = slice_range(s, start, s.len());
    assert(d@ =~= unsigned_digits(s@));
    match digits_value(d.as_slice(), usize::MAX as u64) {
        Some(v) => Some(v as usize),
        None => None,
    }
}

/// `s.parse::<i64>()`.
pub fn parse_i64_chars(s: &[char]) -> (r: Option<i64>)
    ensures
        r == parse_i64(s@),
{
    if s.len() > 0 && s[0] == '-' {
        let d = slice_range(s, 1, s.len());
        assert(d@ =~= s@.skip(1));
        match digits_value(d.as_slice(), 0x8000_0000_0000_0000) {
            Some(v) => {
                if v == 0x8000_0000_0000_0000 {
                    Some(i64::MIN)
                } else {
                    Some(-(v as i64))
                }
            },
            None => None,
        }
    } else {
        let start: usize = if s.len() > 0 && s[0] == '+' {
            1
        } else {
            0
        };
        let d = slice_range(s, start, s.len());
        assert(d@ =~= unsigned_digits(s@));
        match digits_value(d.as_slice(), 0x7FFF_FFFF_FFFF_FFFF) {
            Some(v) => Some(v as i64),
            None => None,
        }
    }
}

/// Parses `s` as a `u32`, `0` when it is not one (`parse().unwrap_or(0)`).
pub fn u32_or_zero(s: &[char]) -> (r: u32)
    ensures
        r == match parse_u32(s@) {
            Some(v) => v,
            None => 0,
        },
{
    match parse_u32_chars(s) {
        Some(v) => v,
        None => 0,
    }
}

/// Decimal rendering of `n`.
pub fn u64_to_chars(n: u64) -> (r: Vec<char>)
    ensures
        r@ == dec_string(n as nat),
    decreases n,
{
    if n < 10 {
        let c = char_of_digit(n);
        vec![c]
    } else {
        let mut r = u64_to_chars(n / 10);
        let c = char_of_digit(n % 10);
        r.push(c);
        r
    }
}

fn char_of_digit(d: u64) -> (c: char)
    requires
        d < 10,
    ensures
        c == (d + ('0' as nat)) as char,
{
    if d == 0 {
        '0'
    } else if d == 1 {
        '1'
    } else if d == 2 {
        '2'
    } else if d == 3 {
        '3'
    } else if d == 4 {
        '4'
    } else if d == 5 {
        '5'
    } else if d == 6 {
        '6'
    } else if d == 7 {
        '7'
    } else if d == 8 {
        '8'
    } else {
        '9'
    }
}

/// Appends the characters of `v` to `s`.
pub fn push_chars(s: &mut String, v: &[char])
    ensures
        final(s)@ == old(s)@ + v@,
{
    let mut i: usize = 0;
    while i < v.len()
        invariant
            0 <= i <= v@.len(),
            s@ == old(s)@ + v@.take(i as int),
        decreases v.len() - i,
    {
        push_char(s, v[i]);
        assert(v@.take(i + 1) =~= v@.take(i as int).push(v@[i as int]));
        i += 1;
    }
    assert(v@.take(v@.len() as int) =~= v@);
}

/// Appends `s2` to `s`.
pub fn push_str(s: &mut String, s2: &str)
    ensures
        final(s)@ == old(s)@ + s2@,
{
    let v = to_chars(s2);
    push_chars(s, v.as_slice());
}

/// Appends the decimal rendering of `n` to `s`.
pub fn push_u64(s: &mut String, n: u64)
    ensures
        final(s)@ == old(s)@ + dec_string(n as nat),
{
    let v = u64_to_chars(n);
    push_chars(s, v.as_slice());
}

/// `s.split_once(p)` with a multi-character pattern.
pub fn split_once_str(s: &[char], p: &[char]) -> (r: Option<(Vec<char>, Vec<char>)>)
    ensures
        match r {
            Some((a, b)) => split_once_seq(s@, p@) == Some((a@, b@)),
            None => split_once_seq(s@, p@) is None,
        },
{
    let n: usize = s.len();
    match find_seq(s, p) {
        Some(k) => {
            proof {
                lemma_find_occurs(s@, p@);
            }
            let a = slice_range(s, 0, k);
            let b = slice_range(s, k + p.len(), n);
            assert(a@ == s@.take(k as int));
            assert(b@ == s@.skip(k + p@.len()));
            Some((a, b))
        },
        None => None,
    }
}

/// `s.strip_prefix(p)`.
pub fn strip_prefix_chars(s: &[char], p: &[char]) -> (r: Option<Vec<char>>)
    ensures
        match r {
            Some(a) => strip_prefix(s@, p@) == Some(a@),
            None => strip_prefix(s@, p@) is None,
        },
{
    if has_prefix(s, p) {
        let a = slice_range(s, p.len(), s.len());
        assert(a@ == s@.skip(p@.len() as int));
        Some(a)
    } else {
        None
    }
}

/// `s.strip_suffix(p)`.
pub fn strip_suffix_chars(s: &[char], p: &[char]) -> (r: Option<Vec<char>>)
    ensures
        match r {
            Some(a) => strip_suffix(s@, p@) == Some(a@),
            None => strip_suffix(s@, p@) is None,
        },
{
    if has_suffix(s, p) {
        let a = slice_range(s, 0, s.len() - p.len());
        assert(a@ == s@.take(s@.len() - p@.len()));
        Some(a)
    } else {
        None
    }
}

/// `s.trim_start_matches(c)`.
pub fn trim_start_char_chars(s: &[char], c: char) -> (r: Vec<char>)
    ensures
        r@ == trim_start_char(s@, c),
{
    let mut lo: usize = 0;
    assert(s@.skip(0) =~= s@);
    while lo < s.len() && s[lo] == c
        invariant
            0 <= lo <= s@.len(),
            trim_start_char(s@, c) == trim_start_char(s@.skip(lo as int), c),
        decreases s.len() - lo,
    {
        assert(s@.skip(lo as int).skip(1) =~= s@.skip(lo + 1));
        lo += 1;
    }
    assert(s@.skip(lo as int) =~= s@.subrange(lo as int, s@.len() as int));
    slice_range(s, lo, s.len())
}

/// `s.trim_end_matches(c)`.
pub fn trim_end_char_chars(s: &[char], c: char) -> (r: Vec<char>)
    ensures
        r@ == trim_end_char(s@, c),
{
    let mut hi: usize = s.len();
    assert(s@.take(s@.len() as int) =~= s@);
    while hi > 0 && s[hi - 1] == c
        invariant
            hi <= s@.len(),
            trim_end_char(s@, c) == trim_end_char(s@.take(hi as int), c),
        decreases hi,
    {
        assert(s@.take(hi as int).drop_last() =~= s@.take(hi - 1));
        hi -= 1;
    }
    assert(s@.take(hi as int) =~= s@.subrange(0, hi as int));
    slice_range(s, 0, hi)
}

/// A `String` of `v`, `None` when `v` is empty.
pub fn opt_string(v: &[char]) -> (r: Option<String>)
    ensures
        opt_str(r) == non_empty(v@),
{
    if v.len() == 0 {
        None
    } else {
        Some(string_of(v))
    }
}

/// `s.split(p)` with a non-empty multi-character pattern.
pub fn split_str_chars(s: &[char], p: &[char]) -> (r: Vec<Vec<char>>)
    requires
        p@.len() > 0,
    ensures
        views(r@) == split_str(s@, p@),
{
    let mut r: Vec<Vec<char>> = Vec::new();
    let mut rest = slice_range(s, 0, s.len());
    assert(rest@ =~= s@);
    while true
        invariant
            p@.len() > 0,
            views(r@) + split_str(rest@, p@) == split_str(s@, p@),
        decreases rest@.len(),
    {
        proof {
            lemma_find_occurs(rest@, p@);
        }
        match split_once_str(rest.as_slice(), p) {
            Some((a, b)) => {
                let ghost before = views(r@);
                assert(split_str(rest@, p@) == seq![a@] + split_str(b@, p@));
                r.push(a);
                assert(views(r@) =~= before.push(r@.last()@));
                assert(views(r@) + split_str(b@, p@) =~= before + (seq![r@.last()@] + split_str(b@, p@)));
                rest = b;
            },
            None => {
                let ghost before = views(r@);
                assert(split_str(rest@, p@) == seq![rest@]);
                r.push(rest);
                assert(views(r@) =~= before + seq![r@.last()@]);
                return r;
            },
        }
    }
    r
}

/// Views of a vector of strings, element by element.
pub fn strings_of(v: &Vec<Vec<char>>) -> (r: Vec<String>)
    ensures
        strs(r@) == views(v@),
{
    let mut r: Vec<String> = Vec::new();
    let mut i: usize = 0;
    while i < v.len()
        invariant
            0 <= i <= v@.len(),
            strs(r@) == views(v@).take(i as int),
        decreases v.len() - i,
    {
        let s = string_of(v[i].as_slice());
        let ghost before = r@;
        r.push(s);
        assert(strs(r@) =~= strs(before).push(s@));
        assert(views(v@).take(i + 1) =~= views(v@).take(i as int).push(v@[i as int]@));
        i += 1;
    }
    assert(views(v@).take(v@.len() as int) =~= views(v@));
    r
}

} // verus!
