//! The index of markdown code in a text: inline code spans and fenced code
//! blocks, as byte ranges.
//!
//! A run of backticks or of tildes at the start of a line, behind spaces and
//! tabs at most, that is three or more long opens a fenced block. The block
//! is closed by the next later line that starts, again behind spaces and tabs
//! at most, with a run of the same character that is at least as long, and
//! reaches to the end of that run. A block that is never closed reaches to
//! the end of the text.
//!
//! Any other run of backticks opens an inline span, which the next run of
//! exactly the same length closes. Where no such run follows, the opening run
//! is ordinary text.

use vstd::prelude::*;
use vstd::string::*;

verus! {

/// A half-open byte range `[start, end)`.
#[derive(Clone, Copy, Debug, PartialEq, Eq)]
pub struct Span {
    pub start: usize,
    pub end: usize,
}

/// The backtick.
pub open spec fn is_tick(b: u8) -> bool {
    b == 0x60
}

/// The tilde.
pub open spec fn is_tilde(b: u8) -> bool {
    b == 0x7e
}

/// A byte of which fences are made: a backtick or a tilde.
pub open spec fn is_fence_byte(b: u8) -> bool {
    is_tick(b) || is_tilde(b)
}

/// The line feed.
pub open spec fn is_newline(b: u8) -> bool {
    b == 0x0a
}

/// A space or a tab.
pub open spec fn is_indent(b: u8) -> bool {
    b == 0x20 || b == 0x09
}

/// The first position at or behind `i` that does not hold the byte `c`.
pub open spec fn run_end(s: Seq<u8>, i: int, c: u8) -> int
    decreases s.len() - i,
{
    if 0 <= i < s.len() && s[i] == c {
        run_end(s, i + 1, c)
    } else {
        i
    }
}

/// The first position at or behind `i` that holds no backtick.
pub open spec fn tick_end(s: Seq<u8>, i: int) -> int {
    run_end(s, i, 0x60)
}

/// The first position at or behind `i` that holds neither space nor tab.
pub open spec fn indent_end(s: Seq<u8>, i: int) -> int
    decreases s.len() - i,
{
    if 0 <= i < s.len() && is_indent(s[i]) {
        indent_end(s, i + 1)
    } else {
        i
    }
}

/// The position of the first line feed at or behind `i`, or the end of the
/// text.
pub open spec fn line_end(s: Seq<u8>, i: int) -> int
    decreases s.len() - i,
{
    if 0 <= i < s.len() && !is_newline(s[i]) {
        line_end(s, i + 1)
    } else {
        i
    }
}

/// The start of the line behind the one that holds `i`, or the end of the
/// text.
pub open spec fn next_line(s: Seq<u8>, i: int) -> int {
    let e = line_end(s, i);
    if e < s.len() {
        e + 1
    } else {
        e
    }
}

/// A line starts at `i`.
pub open spec fn line_start(s: Seq<u8>, i: int) -> bool {
    i == 0 || (0 < i <= s.len() && is_newline(s[i - 1]))
}

/// The run of one fence character that the line starting at `i` begins
/// with, behind its indentation. It is empty where the line begins with
/// something else.
pub open spec fn marker(s: Seq<u8>, i: int) -> (int, int) {
    let a = indent_end(s, i);
    if 0 <= a < s.len() && is_fence_byte(s[a]) {
        (a, run_end(s, a, s[a]))
    } else {
        (a, a)
    }
}

/// The line starting at `k` begins with a run of `width` or more of the
/// fence character `c`.
pub open spec fn closes_fence(s: Seq<u8>, k: int, c: u8, width: int) -> bool {
    marker(s, k).0 < marker(s, k).1 && marker(s, k).1 - marker(s, k).0 >= width && s[marker(
        s,
        k,
    ).0] == c
}

/// The line starting at `i` opens a fenced block.
pub open spec fn opens_fence(s: Seq<u8>, i: int) -> bool {
    line_start(s, i) && marker(s, i).1 - marker(s, i).0 >= 3
}

/// The end of a fenced block that was opened with `width` of the fence
/// character `c`, where `k` is the start of the first line behind the
/// opening one.
pub open spec fn fence_close(s: Seq<u8>, k: int, c: u8, width: int) -> int
    decreases s.len() - k,
{
    if k < 0 || k >= s.len() {
        s.len() as int
    } else if closes_fence(s, k, c, width) {
        marker(s, k).1
    } else if k < next_line(s, k) <= s.len() {
        fence_close(s, next_line(s, k), c, width)
    } else {
        // Not reached: the next line starts behind `k`, in the text.
        s.len() as int
    }
}

/// The start of the first run of exactly `width` backticks at or behind `k`,
/// where no run is already under way at `k`.
pub open spec fn inline_close(s: Seq<u8>, k: int, width: int) -> Option<int>
    decreases s.len() - k,
{
    if k < 0 || k >= s.len() {
        None
    } else if !is_tick(s[k]) {
        inline_close(s, k + 1, width)
    } else if tick_end(s, k) - k == width {
        Some(k)
    } else if k < tick_end(s, k) <= s.len() {
        inline_close(s, tick_end(s, k), width)
    } else {
        // Not reached: a run that starts at `k` ends behind it, in the text.
        None
    }
}

/// The code that starts at `i`, if any does, as the range that it covers.
pub open spec fn code_at(s: Seq<u8>, i: int) -> Option<(int, int)> {
    if opens_fence(s, i) {
        let (a, b) = marker(s, i);
        Some((a, fence_close(s, next_line(s, b), s[a], b - a)))
    } else if 0 <= i < s.len() && is_tick(s[i]) {
        let e = tick_end(s, i);
        match inline_close(s, e, e - i) {
            Some(k) => Some((i, k + (e - i))),
            None => None,
        }
    } else {
        None
    }
}

/// The position at which the scan goes on behind `i`: behind the code that
/// starts there, behind a run of backticks that opens nothing, or at the next
/// byte.
pub open spec fn scan_next(s: Seq<u8>, i: int) -> int {
    match code_at(s, i) {
        Some((a, b)) => b,
        None => if 0 <= i < s.len() && is_tick(s[i]) {
            tick_end(s, i)
        } else {
            i + 1
        },
    }
}

/// The code ranges of `s` that the scan finds from `i` on, in order.
pub open spec fn spans_from(s: Seq<u8>, i: int) -> Seq<(int, int)>
    decreases s.len() - i,
{
    // The scan always moves forward (`lemma_scan_next`): the last condition
    // never holds inside the text.
    if i < 0 || i >= s.len() || !(i < scan_next(s, i) <= s.len()) {
        Seq::empty()
    } else {
        match code_at(s, i) {
            Some(span) => seq![span] + spans_from(s, scan_next(s, i)),
            None => spans_from(s, scan_next(s, i)),
        }
    }
}

/// The code ranges of the text `s`, in order.
pub open spec fn code_spans(s: Seq<u8>) -> Seq<(int, int)> {
    spans_from(s, 0)
}

/// Two half-open ranges have a byte in common.
pub open spec fn overlaps(span: (int, int), start: int, end: int) -> bool {
    span.0 < end && start < span.1 && span.0 < span.1 && start < end
}

/// Some range of `spans` has a byte in common with `[start, end)`.
pub open spec fn overlaps_any(spans: Seq<(int, int)>, start: int, end: int) -> bool {
    exists|i: int| 0 <= i < spans.len() && overlaps(#[trigger] spans[i], start, end)
}

/// `run_end` stops at the first byte that is not `c`.
pub proof fn lemma_run_end(s: Seq<u8>, i: int, c: u8)
    requires
        0 <= i <= s.len(),
    ensures
        i <= run_end(s, i, c) <= s.len(),
        i < s.len() && s[i] == c ==> i < run_end(s, i, c),
        forall|j: int| i <= j < run_end(s, i, c) ==> #[trigger] s[j] == c,
        run_end(s, i, c) < s.len() ==> s[run_end(s, i, c)] != c,
    decreases s.len() - i,
{
    if i < s.len() && s[i] == c {
        lemma_run_end(s, i + 1, c);
    }
}

/// `indent_end` stops at the first byte that is neither space nor tab.
pub proof fn lemma_indent_end(s: Seq<u8>, i: int)
    requires
        0 <= i <= s.len(),
    ensures
        i <= indent_end(s, i) <= s.len(),
        forall|j: int| i <= j < indent_end(s, i) ==> is_indent(#[trigger] s[j]),
        indent_end(s, i) < s.len() ==> !is_indent(s[indent_end(s, i)]),
    decreases s.len() - i,
{
    if i < s.len() && is_indent(s[i]) {
        lemma_indent_end(s, i + 1);
    }
}

/// `line_end` stops at the first line feed, and the next line starts behind
/// it.
pub proof fn lemma_line_end(s: Seq<u8>, i: int)
    requires
        0 <= i <= s.len(),
    ensures
        i <= line_end(s, i) <= s.len(),
        forall|j: int| i <= j < line_end(s, i) ==> !is_newline(#[trigger] s[j]),
        line_end(s, i) < s.len() ==> is_newline(s[line_end(s, i)]),
        i < s.len() ==> i < next_line(s, i),
        i <= next_line(s, i) <= s.len(),
        line_start(s, next_line(s, i)) || next_line(s, i) == s.len(),
    decreases s.len() - i,
{
    if i < s.len() && !is_newline(s[i]) {
        lemma_line_end(s, i + 1);
    }
}

/// The marker of a line lies in the text, behind the start of the line.
pub proof fn lemma_marker(s: Seq<u8>, i: int)
    requires
        0 <= i <= s.len(),
    ensures
        i <= marker(s, i).0 <= marker(s, i).1 <= s.len(),
{
    lemma_indent_end(s, i);
    let a = indent_end(s, i);
    if a < s.len() {
        lemma_run_end(s, a, s[a]);
    }
}

/// A fenced block ends in the text, not before the line at which the search
/// for its end started.
pub proof fn lemma_fence_close(s: Seq<u8>, k: int, c: u8, width: int)
    requires
        0 <= k <= s.len(),
    ensures
        k <= fence_close(s, k, c, width) <= s.len(),
    decreases s.len() - k,
{
    if k < s.len() {
        lemma_marker(s, k);
        lemma_line_end(s, k);
        if !closes_fence(s, k, c, width) {
            lemma_fence_close(s, next_line(s, k), c, width);
        }
    }
}

/// The run that closes an inline span is one of exactly the width asked for.
pub proof fn lemma_inline_close(s: Seq<u8>, k: int, width: int)
    requires
        0 <= k <= s.len(),
    ensures
        inline_close(s, k, width) matches Some(c) ==> k <= c < c + width <= s.len() && is_tick(
            s[c],
        ) && tick_end(s, c) == c + width,
    decreases s.len() - k,
{
    if k < s.len() {
        if !is_tick(s[k]) {
            lemma_inline_close(s, k + 1, width);
        } else {
            lemma_run_end(s, k, 0x60);
            if tick_end(s, k) - k != width {
                lemma_inline_close(s, tick_end(s, k), width);
            }
        }
    }
}

/// The scan moves forward, and code that starts at `i` is a range of the
/// text that is not empty and does not start before `i`.
pub proof fn lemma_scan_next(s: Seq<u8>, i: int)
    requires
        0 <= i < s.len(),
    ensures
        i < scan_next(s, i) <= s.len(),
        code_at(s, i) matches Some(span) ==> i <= span.0 < span.1 == scan_next(s, i),
{
    lemma_marker(s, i);
    lemma_run_end(s, i, 0x60);
    let (a, b) = marker(s, i);
    if opens_fence(s, i) {
        lemma_line_end(s, b);
        lemma_fence_close(s, next_line(s, b), s[a], b - a);
    } else if is_tick(s[i]) {
        lemma_inline_close(s, tick_end(s, i), tick_end(s, i) - i);
    }
}

/// The code ranges lie in the text, none is empty, and each starts at or
/// behind the end of the one before it.
pub proof fn lemma_spans_ordered(s: Seq<u8>, i: int)
    requires
        0 <= i <= s.len(),
    ensures
        forall|j: int|
            0 <= j < spans_from(s, i).len() ==> i <= (#[trigger] spans_from(s, i)[j]).0
                < spans_from(s, i)[j].1 <= s.len(),
        forall|j: int, k: int|
            0 <= j < k < spans_from(s, i).len() ==> (#[trigger] spans_from(s, i)[j]).1 <= (
            #[trigger] spans_from(s, i)[k]).0,
    decreases s.len() - i,
{
    if i < s.len() {
        lemma_scan_next(s, i);
        let n = scan_next(s, i);
        lemma_spans_ordered(s, n);
        let rest = spans_from(s, n);
        match code_at(s, i) {
            Some(span) => {
                let all = spans_from(s, i);
                assert(all == seq![span] + rest);
                assert forall|j: int| 0 <= j < all.len() implies i <= (#[trigger] all[j]).0
                    < all[j].1 <= s.len() by {
                    if j > 0 {
                        assert(all[j] == rest[j - 1]);
                    }
                }
                assert forall|j: int, k: int| 0 <= j < k < all.len() implies (#[trigger] all[j]).1
                    <= (#[trigger] all[k]).0 by {
                    assert(all[k] == rest[k - 1]);
                    if j > 0 {
                        assert(all[j] == rest[j - 1]);
                    }
                }
            },
            None => {},
        }
    }
}

fn scan_run(bytes: &[u8], i: usize, c: u8) -> (e: usize)
    requires
        i <= bytes@.len(),
    ensures
        e == run_end(bytes@, i as int, c),
        i <= e <= bytes@.len(),
{
    let mut e: usize = i;
    while e < bytes.len() && bytes[e] == c
        invariant
            i <= e <= bytes@.len(),
            run_end(bytes@, i as int, c) == run_end(bytes@, e as int, c),
        decreases bytes@.len() - e,
    {
        e = e + 1;
    }
    e
}

fn scan_marker(bytes: &[u8], i: usize) -> (m: (usize, usize))
    requires
        i <= bytes@.len(),
    ensures
        (m.0 as int, m.1 as int) == marker(bytes@, i as int),
        i <= m.0 <= m.1 <= bytes@.len(),
{
    let a = scan_indent(bytes, i);
    if a < bytes.len() && (bytes[a] == 0x60 || bytes[a] == 0x7e) {
        (a, scan_run(bytes, a, bytes[a]))
    } else {
        (a, a)
    }
}

fn scan_indent(bytes: &[u8], i: usize) -> (e: usize)
    requires
        i <= bytes@.len(),
    ensures
        e == indent_end(bytes@, i as int),
        i <= e <= bytes@.len(),
{
    let mut e: usize = i;
    while e < bytes.len() && (bytes[e] == 0x20 || bytes[e] == 0x09)
        invariant
            i <= e <= bytes@.len(),
            indent_end(bytes@, i as int) == indent_end(bytes@, e as int),
        decreases bytes@.len() - e,
    {
        e = e + 1;
    }
    e
}

fn scan_next_line(bytes: &[u8], i: usize) -> (e: usize)
    requires
        i <= bytes@.len(),
    ensures
        e == next_line(bytes@, i as int),
        i <= e <= bytes@.len(),
        i < bytes@.len() ==> i < e,
{
    let mut e: usize = i;
    while e < bytes.len() && bytes[e] != 0x0a
        invariant
            i <= e <= bytes@.len(),
            line_end(bytes@, i as int) == line_end(bytes@, e as int),
        decreases bytes@.len() - e,
    {
        e = e + 1;
    }
    if e < bytes.len() {
        e + 1
    } else {
        e
    }
}

fn find_fence_close(bytes: &[u8], k: usize, c: u8, width: usize) -> (e: usize)
    requires
        k <= bytes@.len(),
    ensures
        e == fence_close(bytes@, k as int, c, width as int),
        k <= e <= bytes@.len(),
{
    let mut line: usize = k;
    while line < bytes.len()
        invariant
            k <= line <= bytes@.len(),
            fence_close(bytes@, k as int, c, width as int) == fence_close(
                bytes@,
                line as int,
                c,
                width as int,
            ),
        decreases bytes@.len() - line,
    {
        let (a, b) = scan_marker(bytes, line);
        if a < b && b - a >= width && bytes[a] == c {
            return b;
        }
        line = scan_next_line(bytes, line);
    }
    bytes.len()
}

fn find_inline_close(bytes: &[u8], k: usize, width: usize) -> (r: Option<usize>)
    requires
        k <= bytes@.len(),
    ensures
        match inline_close(bytes@, k as int, width as int) {
            Some(c) => r == Some(c as usize) && k <= c < bytes@.len(),
            None => r is None,
        },
{
    let mut at: usize = k;
    while at < bytes.len()
        invariant
            k <= at <= bytes@.len(),
            inline_close(bytes@, k as int, width as int) == inline_close(
                bytes@,
                at as int,
                width as int,
            ),
        decreases bytes@.len() - at,
    {
        if bytes[at] != 0x60 {
            at = at + 1;
        } else {
            let e = scan_run(bytes, at, 0x60);
            proof {
                lemma_run_end(bytes@, at as int, 0x60);
            }
            if e - at == width {
                return Some(at);
            }
            at = e;
        }
    }
    None
}

/// The index of the markdown code in one text.
#[derive(Clone, Debug)]
pub struct ColorCodeBlocks {
    code: Vec<Span>,
}

/// The ranges of `code` as pairs of integers.
pub open spec fn ranges(code: Seq<Span>) -> Seq<(int, int)> {
    Seq::new(code.len(), |i: int| (code[i].start as int, code[i].end as int))
}

impl View for ColorCodeBlocks {
    type V = Seq<(int, int)>;

    closed spec fn view(&self) -> Seq<(int, int)> {
        ranges(self.code@)
    }
}

impl ColorCodeBlocks {
    /// Scans `s` once and records its code ranges.
    pub fn new(s: &str) -> (r: ColorCodeBlocks)
        ensures
            r@ == code_spans(s.spec_bytes()),
    {
        let bytes = s.as_bytes();
        let n: usize = bytes.len();
        let mut code: Vec<Span> = Vec::new();
        let mut i: usize = 0;
        assert(ranges(code@) =~= Seq::<(int, int)>::empty());
        while i < n
            invariant
                i <= n,
                n == bytes@.len(),
                code_spans(bytes@) == ranges(code@) + spans_from(bytes@, i as int),
            decreases n - i,
        {
            proof {
                lemma_scan_next(bytes@, i as int);
            }
            let ghost found = ranges(code@);
            let at_line_start = i == 0 || bytes[i - 1] == 0x0a;
            let (a, b) = scan_marker(bytes, i);
            if at_line_start && b - a >= 3 {
                let from = scan_next_line(bytes, b);
                let end = find_fence_close(bytes, from, bytes[a], b - a);
                code.push(Span { start: a, end });
                assert(ranges(code@) =~= found + seq![(a as int, end as int)]);
                assert(found + (seq![(a as int, end as int)] + spans_from(bytes@, end as int))
                    =~= found + seq![(a as int, end as int)] + spans_from(bytes@, end as int));
                i = end;
            } else if bytes[i] == 0x60 {
                let e = scan_run(bytes, i, 0x60);
                match find_inline_close(bytes, e, e - i) {
                    Some(k) => {
                        let end: usize = k + (e - i);
                        code.push(Span { start: i, end });
                        assert(ranges(code@) =~= found + seq![(i as int, end as int)]);
                        assert(found + (seq![(i as int, end as int)] + spans_from(
                            bytes@,
                            end as int,
                        )) =~= found + seq![(i as int, end as int)] + spans_from(
                            bytes@,
                            end as int,
                        ));
                        i = end;
                    },
                    None => {
                        i = e;
                    },
                }
            } else {
                i = i + 1;
            }
        }
        assert(ranges(code@) + Seq::<(int, int)>::empty() =~= ranges(code@));
        ColorCodeBlocks { code }
    }

    /// The recorded code ranges, in the order of the text.
    pub fn spans(&self) -> (r: &[Span])
        ensures
            ranges(r@) == self@,
    {
        self.code.as_slice()
    }

    /// The first recorded code range that has a byte in common with
    /// `[start, end)`, if there is one.
    pub fn overlaps_code(&self, start: usize, end: usize) -> (r: Option<Span>)
        ensures
            r is Some <==> overlaps_any(self@, start as int, end as int),
            r matches Some(span) ==> exists|i: int|
                0 <= i < self@.len() && #[trigger] self@[i] == (span.start as int, span.end as int)
                    && overlaps(self@[i], start as int, end as int) && !overlaps_any(
                    self@.take(i),
                    start as int,
                    end as int,
                ),
    {
        let mut i: usize = 0;
        while i < self.code.len()
            invariant
                i <= self.code@.len(),
                !overlaps_any(self@.take(i as int), start as int, end as int),
            decreases self.code@.len() - i,
        {
            let span = self.code[i];
            if span.start < end && start < span.end && span.start < span.end && start < end {
                assert(self@[i as int] == (span.start as int, span.end as int));
                return Some(span);
            }
            assert forall|j: int| 0 <= j < i + 1 implies !overlaps(
                #[trigger] self@.take(i + 1)[j],
                start as int,
                end as int,
            ) by {
                if j < i {
                    assert(self@.take(i + 1)[j] == self@.take(i as int)[j]);
                }
            }
            i = i + 1;
        }
        assert(self@.take(i as int) =~= self@);
        None
    }
}

} // verus!
