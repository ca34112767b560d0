//! Incremental Server-Sent Events parser: byte chunks of any size in,
//! complete events out.
//!
//! - events end at an empty line (`\n\n`, `\r\n\r\n` or mixed);
//! - `data:` lines of one event are joined with `\n`;
//! - `event:` sets the event type;
//! - comment lines (`:`), `id:`, `retry:` and unknown fields are ignored;
//! - a field value may start with one optional space.

use vstd::prelude::*;
use crate::text::{split, strip_cr, strip_prefix, starts_with, split_once, join, to_chars, split_chars, views, eq_chars, strip_prefix_chars, split_once_char, string_of, opt_str, push_char, push_chars};
use crate::utf8::{utf8_lossy, string_from_utf8_lossy};
use crate::model::seq_view;

verus! {

/// One complete SSE event.
#[derive(Debug, Clone, PartialEq, Eq)]
pub struct SseEvent {
    /// The `event:` field; `None` when not set.
    pub event: Option<String>,
    /// The `data:` payload (several lines joined with `\n`).
    pub data: String,
}

pub struct SseEventV {
    pub event: Option<Seq<char>>,
    pub data: Seq<char>,
}

impl View for SseEvent {
    type V = SseEventV;

    open spec fn view(&self) -> SseEventV {
        SseEventV { event: opt_str(self.event), data: self.data@ }
    }
}

/// The first event end at or after `i`: where the event's content ends and
/// how many terminator bytes follow (`\n\n` or `\n\r\n`).
pub open spec fn event_end_from(buf: Seq<u8>, i: int) -> Option<(int, int)>
    decreases buf.len() - i,
{
    if i < 0 || i >= buf.len() {
        None
    } else if buf[i] == 10 && i + 1 < buf.len() && buf[i + 1] == 10 {
        Some((i, 2))
    } else if buf[i] == 10 && i + 2 < buf.len() && buf[i + 1] == 13 && buf[i + 2] == 10 {
        Some((i, 3))
    } else {
        event_end_from(buf, i + 1)
    }
}

pub open spec fn event_end(buf: Seq<u8>) -> Option<(int, int)> {
    event_end_from(buf, 0)
}

/// The field and value of one event line, `None` for an empty or comment line.
pub open spec fn event_field(line: Seq<char>) -> Option<(Seq<char>, Seq<char>)> {
    let l = strip_cr(line);
    if l.len() == 0 || starts_with(l, seq![':']) {
        None
    } else {
        match split_once(l, ':') {
            Some((f, v)) => Some(
                (
                    f,
                    match strip_prefix(v, seq![' ']) {
                        Some(x) => x,
                        None => v,
                    },
                ),
            ),
            None => Some((l, Seq::<char>::empty())),
        }
    }
}

/// Data lines and event type of the first `n` lines.
pub open spec fn event_fields(lines: Seq<Seq<char>>, n: int) -> (Seq<Seq<char>>, Option<Seq<char>>)
    decreases n,
{
    if n <= 0 {
        (Seq::<Seq<char>>::empty(), None)
    } else {
        let (data, ev) = event_fields(lines, n - 1);
        match event_field(lines[n - 1]) {
            Some((f, v)) => if f == "data"@ {
                (data.push(v), ev)
            } else if f == "event"@ {
                (data, Some(v))
            } else {
                (data, ev)
            },
            None => (data, ev),
        }
    }
}

/// One event block (without its terminating empty line), decoded lossily.
pub open spec fn parse_event_spec(raw: Seq<u8>) -> SseEventV {
    let lines = split(utf8_lossy(raw), '\n');
    let (data, ev) = event_fields(lines, lines.len() as int);
    SseEventV { event: ev, data: join(data, '\n') }
}

/// The complete events at the front of `buf`, and what remains after them.
pub open spec fn drain_events(buf: Seq<u8>) -> (Seq<SseEventV>, Seq<u8>)
    decreases buf.len(),
{
    match event_end(buf) {
        Some((end, n)) => if 0 <= end && end + n <= buf.len() && n > 0 {
            let (rest_events, rest) = drain_events(buf.skip(end + n));
            (seq![parse_event_spec(buf.take(end))] + rest_events, rest)
        } else {
            (Seq::<SseEventV>::empty(), buf)
        },
        None => (Seq::<SseEventV>::empty(), buf),
    }
}

/// ASCII whitespace as `u8::is_ascii_whitespace` has it.
pub open spec fn is_ascii_ws(b: u8) -> bool {
    b == 32 || b == 9 || b == 10 || b == 12 || b == 13
}

/// Incremental SSE parser: holds the bytes of the unterminated tail.
#[derive(Debug)]
pub struct SseParser {
    buf: Vec<u8>,
}

impl View for SseParser {
    type V = Seq<u8>;

    closed spec fn view(&self) -> Seq<u8> {
        self.buf@
    }
}

fn find_event_end(buf: &[u8]) -> (r: Option<(usize, usize)>)
    ensures
        match r {
            Some((e, n)) => event_end(buf@) == Some((e as int, n as int)) && e + n <= buf@.len() && n > 0,
            None => event_end(buf@) is None,
        },
{
    let len: usize = buf.len();
    let mut i: usize = 0;
    while i < len
        invariant
            len == buf@.len(),
            0 <= i <= len,
            event_end(buf@) == event_end_from(buf@, i as int),
        decreases len - i,
    {
        if buf[i] == 10 {
            if len - i > 1 && buf[i + 1] == 10 {
                return Some((i, 2));
            }
            if len - i > 2 && buf[i + 1] == 13 && buf[i + 2] == 10 {
                return Some((i, 3));
            }
        }
        i += 1;
    }
    None
}

fn bytes_range(v: &[u8], lo: usize, hi: usize) -> (r: Vec<u8>)
    requires
        lo <= hi <= v@.len(),
    ensures
        r@ == v@.subrange(lo as int, hi as int),
{
    let mut r: Vec<u8> = Vec::new();
    let mut i: usize = lo;
    while i < hi
        invariant
            lo <= i <= hi <= v@.len(),
            r@ == v@.subrange(lo as int, i as int),
        decreases hi - i,
    {
        r.push(v[i]);
        assert(v@.subrange(lo as int, i + 1) =~= v@.subrange(lo as int, i as int).push(v@[i as int]));
        i += 1;
    }
    r
}

fn join_lines(parts: &Vec<Vec<char>>) -> (r: String)
    ensures
        r@ == join(views(parts@), '\n'),
{
    let ghost ps = views(parts@);
    let mut r = String::new();
    let mut k: usize = 0;
    while k < parts.len()
        invariant
            ps == views(parts@),
            0 <= k <= ps.len(),
            r@ == join(ps.take(k as int), '\n'),
        decreases parts.len() - k,
    {
        let ghost prev = ps.take(k as int);
        assert(ps.take(k + 1).drop_last() =~= prev);
        assert(ps.take(k + 1).last() == parts@[k as int]@);
        if k > 0 {
            push_char(&mut r, '\n');
        } else {
            assert(prev =~= Seq::<Seq<char>>::empty());
        }
        push_chars(&mut r, parts[k].as_slice());
        k += 1;
    }
    assert(ps.take(ps.len() as int) =~= ps);
    r
}

/// Parses one event block (without its terminating empty line).
fn parse_event(raw: &[u8]) -> (r: SseEvent)
    ensures
        r@ == parse_event_spec(raw@),
{
    let text = string_from_utf8_lossy(raw);
    let chars = to_chars(text.as_str());
    let lines = split_chars(chars.as_slice(), '\n');
    let ghost ls = views(lines@);
    let data_p = to_chars("data");
    let event_p = to_chars("event");
    let colon = vec![':'];
    let space = vec![' '];
    assert(colon@ =~= seq![':'] && space@ =~= seq![' ']);
    let mut data: Vec<Vec<char>> = Vec::new();
    let mut event: Option<Vec<char>> = None;
    let mut i: usize = 0;
    while i < lines.len()
        invariant
            ls == views(lines@),
            data_p@ == "data"@,
            event_p@ == "event"@,
            colon@ == seq![':'],
            space@ == seq![' '],
            0 <= i <= ls.len(),
            (views(data@), match event {
                Some(v) => Some(v@),
                None => None,
            }) == event_fields(ls, i as int),
        decreases lines.len() - i,
    {
        let raw_line = &lines[i];
        assert(ls[i as int] == raw_line@);
        let n: usize = raw_line.len();
        let l: &[char] = if n > 0 && raw_line[n - 1] == '\r' {
            &raw_line.as_slice()[0..n - 1]
        } else {
            raw_line.as_slice()
        };
        assert(l@ == strip_cr(raw_line@)) by {
            if n > 0 && raw_line@[n - 1] == '\r' {
                assert(l@ =~= raw_line@.drop_last());
            }
        }
        let comment = match strip_prefix_chars(l, colon.as_slice()) {
            Some(_) => true,
            None => false,
        };
        if l.len() > 0 && !comment {
            let (f, v) = match split_once_char(l, ':') {
                Some((f, v)) => {
                    let v2 = match strip_prefix_chars(v.as_slice(), space.as_slice()) {
                        Some(x) => x,
                        None => v,
                    };
                    (f, v2)
                },
                None => (crate::text::slice_range(l, 0, l.len()), Vec::new()),
            };
            assert(event_field(ls[i as int]) == Some((f@, v@)));
            if eq_chars(f.as_slice(), data_p.as_slice()) {
                let ghost before = views(data@);
                data.push(v);
                assert(views(data@) =~= before.push(v@));
            } else if eq_chars(f.as_slice(), event_p.as_slice()) {
                event = Some(v);
            }
        }
        i += 1;
    }
    assert(ls.len() == lines@.len());
    let ev = match event {
        Some(v) => Some(string_of(v.as_slice())),
        None => None,
    };
    SseEvent { event: ev, data: join_lines(&data) }
}

impl SseParser {
    pub fn new() -> (r: Self)
        ensures
            r@ == Seq::<u8>::empty(),
    {
        SseParser { buf: Vec::new() }
    }

    /// Feeds a chunk of bytes; returns the events it completes, in order.
    pub fn feed(&mut self, chunk: &[u8]) -> (r: Vec<SseEvent>)
        ensures
            seq_view(r@) == drain_events(old(self)@ + chunk@).0,
            final(self)@ == drain_events(old(self)@ + chunk@).1,
    {
        let mut i: usize = 0;
        while i < chunk.len()
            invariant
                0 <= i <= chunk@.len(),
                self@ == old(self)@ + chunk@.take(i as int),
            decreases chunk.len() - i,
        {
            self.buf.push(chunk[i]);
            assert(chunk@.take(i + 1) =~= chunk@.take(i as int).push(chunk@[i as int]));
            i += 1;
        }
        assert(chunk@.take(chunk@.len() as int) =~= chunk@);
        let ghost total = self@;
        let mut events: Vec<SseEvent> = Vec::new();
        loop
            invariant
                drain_events(total) == (seq_view(events@) + drain_events(self@).0, drain_events(self@).1),
            ensures
                drain_events(total) == (seq_view(events@), self@),
            decreases self@.len(),
        {
            let (end, n) = match find_event_end(self.buf.as_slice()) {
                Some(x) => x,
                None => {
                    assert(seq_view(events@) + drain_events(self@).0 =~= seq_view(events@));
                    assert(drain_events(self@).1 == self@);
                    break;
                },
            };
            let len: usize = self.buf.len();
            let raw = bytes_range(self.buf.as_slice(), 0, end);
            let ev = parse_event(raw.as_slice());
            let rest = bytes_range(self.buf.as_slice(), end + n, len);
            assert(raw@ =~= self@.take(end as int));
            assert(rest@ =~= self@.skip(end + n));
            proof {
                crate::model::lemma_seq_view_push(events@, ev);
            }
            let ghost before = seq_view(events@);
            events.push(ev);
            assert(seq_view(events@) + drain_events(rest@).0 =~= before + drain_events(self@).0);
            self.buf = rest;
        }
        events
    }

    /// End of stream: the unterminated tail as one last event, unless it is
    /// only whitespace.
    pub fn finish(&mut self) -> (r: Vec<SseEvent>)
        ensures
            final(self)@ == Seq::<u8>::empty(),
            (exists|i: int| 0 <= i < old(self)@.len() && !is_ascii_ws(#[trigger] old(self)@[i]))
                ==> seq_view(r@) == seq![parse_event_spec(old(self)@)],
            !(exists|i: int| 0 <= i < old(self)@.len() && !is_ascii_ws(#[trigger] old(self)@[i]))
                ==> r@.len() == 0,
    {
        let mut any = false;
        let mut i: usize = 0;
        while i < self.buf.len()
            invariant
                0 <= i <= self@.len(),
                self@ == old(self)@,
                any == exists|j: int| 0 <= j < i && !is_ascii_ws(#[trigger] self@[j]),
            decreases self.buf.len() - i,
        {
            let b = self.buf[i];
            if !(b == 32 || b == 9 || b == 10 || b == 12 || b == 13) {
                assert(!is_ascii_ws(self@[i as int]));
                any = true;
            }
            i += 1;
        }
        if any {
            let ev = parse_event(self.buf.as_slice());
            self.buf = Vec::new();
            let r = vec![ev];
            assert(seq_view(r@) =~= seq![ev@]);
            r
        } else {
            self.buf = Vec::new();
            Vec::new()
        }
    }
}


// =====================
// Laws
// =====================

proof fn lemma_end_prefix(x: Seq<u8>, y: Seq<u8>, i: int)
    requires
        0 <= i,
        event_end_from(x, i) is Some,
    ensures
        event_end_from(x + y, i) == event_end_from(x, i),
        event_end_from(x, i) matches Some((e, n)) ==> i <= e && e + n <= x.len() && (n == 2 || n == 3),
    decreases x.len() - i,
{
    let z = x + y;
    if i < x.len() {
        assert(z[i] == x[i]);
        if i + 1 < x.len() {
            assert(z[i + 1] == x[i + 1]);
        }
        if i + 2 < x.len() {
            assert(z[i + 2] == x[i + 2]);
        }
        if !(x[i] == 10 && i + 1 < x.len() && x[i + 1] == 10) && !(x[i] == 10 && i + 2 < x.len()
            && x[i + 1] == 13 && x[i + 2] == 10) {
            lemma_end_prefix(x, y, i + 1);
            let (e, n) = event_end_from(x, i + 1)->0;
            assert(i + 2 < x.len());
        }
    }
}

/// The events of a stream do not depend on where it is cut into chunks:
/// draining `x + y` gives the events of `x`, then those of what `x` left
/// over followed by `y`, and the same tail.
pub proof fn lemma_drain_chunked(x: Seq<u8>, y: Seq<u8>)
    ensures
        drain_events(x + y).0 == drain_events(x).0 + drain_events(drain_events(x).1 + y).0,
        drain_events(x + y).1 == drain_events(drain_events(x).1 + y).1,
    decreases x.len(),
{
    match event_end(x) {
        Some((e, n)) => {
            lemma_end_prefix(x, y, 0);
            let z = x + y;
            assert(z.take(e) =~= x.take(e));
            assert(z.skip(e + n) =~= x.skip(e + n) + y);
            lemma_drain_chunked(x.skip(e + n), y);
            let (re, rest) = drain_events(x.skip(e + n));
            assert(seq![parse_event_spec(x.take(e))] + re + drain_events(rest + y).0 =~= seq![
                parse_event_spec(x.take(e)),
            ] + (re + drain_events(rest + y).0));
        },
        None => {
            assert(drain_events(x).0 + drain_events(x + y).0 =~= drain_events(x + y).0);
        },
    }
}

/// Feeding the parser `a` and then `b` yields the events, and leaves the
/// tail, of feeding it `a + b` at once.
pub proof fn lemma_feed_chunking(buf: Seq<u8>, a: Seq<u8>, b: Seq<u8>)
    ensures
        drain_events(buf + a).0 + drain_events(drain_events(buf + a).1 + b).0 == drain_events(
            buf + (a + b),
        ).0,
        drain_events(drain_events(buf + a).1 + b).1 == drain_events(buf + (a + b)).1,
{
    lemma_drain_chunked(buf + a, b);
    assert(buf + a + b =~= buf + (a + b));
}

} // verus!
