//! Markdown as the detail panel shows it: each line of a text becomes a line
//! of spans, each span a piece of text with the way it is to be drawn.

use vstd::prelude::*;
use crate::edit::{chars_of, end_of_line, line_end, text_of};

verus! {

/// The way a span is drawn.
#[derive(Debug, Clone, Copy, PartialEq, Eq, Structural)]
pub enum SpanStyle {
    /// Text as it is.
    Plain,
    /// Rules, table borders, the tag of a code block, the bar of a quote.
    Muted,
    /// A line of a code block.
    CodeBlock,
    /// A header of any level.
    Header,
    /// The text of a quote.
    Quote,
    /// The mark of a list item.
    Bullet,
    /// Code within a line.
    InlineCode,
    Bold,
    Italic,
    /// The text of a link.
    Link,
    /// The word that marks an issue as ready.
    Ready,
    /// The word that marks an issue as blocked.
    Blocked,
    /// The list of what blocks an issue.
    BlockedBy,
    /// The priority 0.
    PriorityZero,
    /// The priority 1.
    PriorityOne,
    /// The priority 2.
    PriorityTwo,
    /// The priority 3.
    PriorityThree,
    /// The row of a closed issue in the tree.
    RowClosed,
    /// The row of a ready issue in the tree.
    RowReady,
    /// The row of a blocked issue in the tree.
    RowBlocked,
    /// The identifier of an issue with several parents.
    IdShared,
    /// The name of the field that is edited.
    FieldName,
    /// The character under the cursor.
    Cursor,
    /// The hint below a text that was changed.
    Changed,
}

/// A piece of text with the way it is drawn.
#[derive(Debug)]
pub struct StyledSpan {
    pub text: String,
    pub style: SpanStyle,
}

/// What a span stands for.
pub struct SpanView {
    pub text: Seq<char>,
    pub style: SpanStyle,
}

impl View for StyledSpan {
    type V = SpanView;

    open spec fn view(&self) -> SpanView {
        SpanView { text: self.text@, style: self.style }
    }
}

/// One line of spans.
#[derive(Debug)]
pub struct StyledLine {
    pub spans: Vec<StyledSpan>,
}

impl View for StyledLine {
    type V = Seq<SpanView>;

    open spec fn view(&self) -> Seq<SpanView> {
        self.spans@.map_values(|s: StyledSpan| s@)
    }
}

/// What a list of lines stands for.
pub open spec fn lines_view(lines: Seq<StyledLine>) -> Seq<Seq<SpanView>> {
    lines.map_values(|l: StyledLine| l@)
}

/// A span.
pub open spec fn span(text: Seq<char>, style: SpanStyle) -> SpanView {
    SpanView { text, style }
}

/// Whether `c` is white space: a character with the Unicode property
/// White_Space.
pub open spec fn is_space(c: char) -> bool {
    ||| c == ' '
    ||| '\u{9}' <= c <= '\u{d}'
    ||| c == '\u{85}'
    ||| c == '\u{a0}'
    ||| c == '\u{1680}'
    ||| '\u{2000}' <= c <= '\u{200a}'
    ||| c == '\u{2028}'
    ||| c == '\u{2029}'
    ||| c == '\u{202f}'
    ||| c == '\u{205f}'
    ||| c == '\u{3000}'
}

/// Whether `c` is white space.
pub fn white_space(c: char) -> (r: bool)
    ensures
        r == is_space(c),
{
    c == ' ' || ('\u{9}' <= c && c <= '\u{d}') || c == '\u{85}' || c == '\u{a0}' || c
        == '\u{1680}' || ('\u{2000}' <= c && c <= '\u{200a}') || c == '\u{2028}' || c
        == '\u{2029}' || c == '\u{202f}' || c == '\u{205f}' || c == '\u{3000}'
}

/// Index of the first character of `s` at or after `lo` and before `hi`
/// that is no white space; `hi` where there is none.
pub open spec fn skip_space(s: Seq<char>, lo: int, hi: int) -> int
    decreases hi - lo,
{
    if lo >= hi {
        hi
    } else if is_space(s[lo]) {
        skip_space(s, lo + 1, hi)
    } else {
        lo
    }
}

/// Index behind the last character of `s` at or after `lo` and before `hi`
/// that is no white space; `lo` where there is none.
pub open spec fn drop_space(s: Seq<char>, lo: int, hi: int) -> int
    decreases hi - lo,
{
    if lo >= hi {
        lo
    } else if is_space(s[hi - 1]) {
        drop_space(s, lo, hi - 1)
    } else {
        hi
    }
}

/// `s` without the white space at either end.
pub open spec fn trimmed(s: Seq<char>) -> Seq<char> {
    let lo = skip_space(s, 0, s.len() as int);
    s.subrange(lo, drop_space(s, lo, s.len() as int))
}

/// The bounds that white space leaves.
pub proof fn lemma_trim_bounds(s: Seq<char>, lo: int, hi: int)
    requires
        0 <= lo <= hi <= s.len(),
    ensures
        lo <= skip_space(s, lo, hi) <= hi,
        lo <= drop_space(s, lo, hi) <= hi,
    decreases hi - lo,
{
    if lo < hi {
        if is_space(s[lo]) {
            lemma_trim_bounds(s, lo + 1, hi);
        }
        if is_space(s[hi - 1]) {
            lemma_trim_bounds(s, lo, hi - 1);
        }
    }
}

/// The characters of `s` from `from` up to `to`.
pub fn slice(s: &Vec<char>, from: usize, to: usize) -> (r: Vec<char>)
    requires
        from <= to <= s.len(),
    ensures
        r@ == s@.subrange(from as int, to as int),
{
    let mut r: Vec<char> = Vec::new();
    let mut i = from;
    while i < to
        invariant
            from <= i <= to,
            to <= s.len(),
            r@ == s@.subrange(from as int, i as int),
        decreases to - i,
    {
        assert(s@.subrange(from as int, i + 1) =~= s@.subrange(from as int, i as int).push(
            s[i as int],
        ));
        r.push(s[i]);
        i += 1;
    }
    r
}

/// `s` without the white space at either end.
pub fn trim(s: &Vec<char>) -> (r: Vec<char>)
    ensures
        r@ == trimmed(s@),
{
    let n = s.len();
    let mut lo: usize = 0;
    while lo < n && white_space(s[lo])
        invariant
            lo <= n,
            n == s.len(),
            skip_space(s@, 0, n as int) == skip_space(s@, lo as int, n as int),
        decreases n - lo,
    {
        lo += 1;
    }
    let mut hi: usize = n;
    while hi > lo && white_space(s[hi - 1])
        invariant
            lo <= hi <= n,
            n == s.len(),
            drop_space(s@, lo as int, n as int) == drop_space(s@, lo as int, hi as int),
        decreases hi - lo,
    {
        hi -= 1;
    }
    slice(s, lo, hi)
}

/// Whether `s` holds `pat` at position `at`.
pub open spec fn holds_at(s: Seq<char>, at: int, pat: Seq<char>) -> bool {
    0 <= at && at + pat.len() <= s.len() && s.subrange(at, at + pat.len()) == pat
}

/// Whether `s` begins with `pat`.
pub open spec fn begins_with(s: Seq<char>, pat: Seq<char>) -> bool {
    holds_at(s, 0, pat)
}

/// Whether `pat` occurs in `s`.
pub open spec fn occurs(s: Seq<char>, pat: Seq<char>) -> bool {
    exists|at: int| holds_at(s, at, pat)
}

/// Whether `s` holds `pat` at position `at`.
pub fn has_at(s: &Vec<char>, at: usize, pat: &Vec<char>) -> (r: bool)
    ensures
        r == holds_at(s@, at as int, pat@),
{
    let m = pat.len();
    if at > s.len() || m > s.len() - at {
        return false;
    }
    let mut k: usize = 0;
    while k < m
        invariant
            k <= m,
            m == pat.len(),
            at + m <= s.len(),
            forall|j: int| 0 <= j < k ==> s[at + j] == pat[j],
        decreases m - k,
    {
        if s[at + k] != pat[k] {
            assert(s@.subrange(at as int, at + m)[k as int] != pat@[k as int]);
            return false;
        }
        k += 1;
    }
    assert(s@.subrange(at as int, at + m) =~= pat@);
    true
}

/// Position of the first occurrence of `pat` in `s`.
pub fn find(s: &Vec<char>, pat: &Vec<char>) -> (r: Option<usize>)
    ensures
        match r {
            Some(at) => holds_at(s@, at as int, pat@) && forall|j: int|
                0 <= j < at ==> !holds_at(s@, j, pat@),
            None => !occurs(s@, pat@),
        },
{
    let n = s.len();
    let mut at: usize = 0;
    while at < n
        invariant
            at <= n,
            n == s.len(),
            forall|j: int| 0 <= j < at ==> !holds_at(s@, j, pat@),
        decreases n - at,
    {
        if has_at(s, at, pat) {
            return Some(at);
        }
        at += 1;
    }
    if has_at(s, n, pat) {
        return Some(n);
    }
    None
}

/// Whether every character of `s` is `c`.
pub open spec fn all_are(s: Seq<char>, c: char) -> bool {
    forall|k: int| 0 <= k < s.len() ==> s[k] == c
}

/// Whether every character of `s` is `c`.
pub fn every(s: &Vec<char>, c: char) -> (r: bool)
    ensures
        r == all_are(s@, c),
{
    let n = s.len();
    let mut k: usize = 0;
    while k < n
        invariant
            k <= n,
            n == s.len(),
            forall|j: int| 0 <= j < k ==> s[j] == c,
        decreases n - k,
    {
        if s[k] != c {
            return false;
        }
        k += 1;
    }
    true
}

/// Whether `c` is one of the digits `0` to `9`.
pub open spec fn is_digit(c: char) -> bool {
    '0' <= c <= '9'
}

/// Whether the first `upto` characters of `s` are digits.
pub open spec fn digits_upto(s: Seq<char>, upto: int) -> bool {
    forall|k: int| 0 <= k < upto ==> is_digit(s[k])
}

/// Whether the first `upto` characters of `s` are digits.
pub fn leading_digits(s: &Vec<char>, upto: usize) -> (r: bool)
    requires
        upto <= s.len(),
    ensures
        r == digits_upto(s@, upto as int),
{
    let mut k: usize = 0;
    while k < upto
        invariant
            k <= upto,
            upto <= s.len(),
            forall|j: int| 0 <= j < k ==> is_digit(s[j]),
        decreases upto - k,
    {
        if !('0' <= s[k] && s[k] <= '9') {
            return false;
        }
        k += 1;
    }
    true
}

/// The lines of a text. A line ends with a line feed, which does not belong
/// to it, nor does a carriage return right before the line feed. What
/// follows the last line feed is a line if it is not empty.
pub open spec fn lines_of(text: Seq<char>) -> Seq<Seq<char>>
    decreases text.len(),
{
    if text.len() == 0 {
        Seq::empty()
    } else {
        let end = line_end(text, 0);
        if end >= text.len() || end < 0 {
            seq![text]
        } else {
            let upto = if end > 0 && text[end - 1] == '\r' {
                end - 1
            } else {
                end
            };
            seq![text.subrange(0, upto)] + lines_of(text.subrange(end + 1, text.len() as int))
        }
    }
}

/// The lines of a text from position `from` on.
pub open spec fn lines_from(text: Seq<char>, from: int) -> Seq<Seq<char>> {
    lines_of(text.subrange(from, text.len() as int))
}

/// The end of a line does not depend on what stands before its start.
pub proof fn lemma_line_end_shift(text: Seq<char>, from: int, pos: int)
    requires
        0 <= from <= pos <= text.len(),
    ensures
        line_end(text.subrange(from, text.len() as int), pos - from) == line_end(text, pos) - from,
    decreases text.len() - pos,
{
    let tail = text.subrange(from, text.len() as int);
    if pos < text.len() {
        assert(tail[pos - from] == text[pos]);
        if text[pos] != '\n' {
            lemma_line_end_shift(text, from, pos + 1);
        }
    }
}

/// The lines of a text, each as its characters.
pub fn split_lines(text: &Vec<char>) -> (lines: Vec<Vec<char>>)
    ensures
        lines@.map_values(|l: Vec<char>| l@) == lines_of(text@),
{
    let n = text.len();
    let mut lines: Vec<Vec<char>> = Vec::new();
    let mut from: usize = 0;
    assert(text@.subrange(0, n as int) =~= text@);
    while from < n
        invariant
            from <= n,
            n == text.len(),
            lines_of(text@) == lines@.map_values(|l: Vec<char>| l@) + lines_from(text@, from as int),
        decreases n - from,
    {
        let ghost tail = text@.subrange(from as int, n as int);
        let ghost done = lines@.map_values(|l: Vec<char>| l@);
        let end = end_of_line(text, from);
        proof {
            lemma_line_end_shift(text@, from as int, from as int);
            assert(line_end(tail, 0) == end - from);
        }
        if end >= n {
            let line = slice(text, from, n);
            lines.push(line);
            proof {
                assert(lines@.map_values(|l: Vec<char>| l@) =~= done + seq![tail]);
                assert(lines_of(tail) =~= seq![tail]);
                assert(lines_from(text@, n as int) =~= Seq::<Seq<char>>::empty());
                assert(done + seq![tail] + Seq::<Seq<char>>::empty() =~= done + seq![tail]);
            }
            from = n;
        } else {
            let upto = if end > from && text[end - 1] == '\r' {
                end - 1
            } else {
                end
            };
            let line = slice(text, from, upto);
            proof {
                if end > from {
                    assert(tail[end - from - 1] == text[end - 1]);
                }
                assert(tail.subrange(0, upto - from) =~= text@.subrange(from as int, upto as int));
                assert(tail.subrange(end - from + 1, tail.len() as int) =~= text@.subrange(
                    end + 1,
                    n as int,
                ));
                assert(lines_of(tail) == seq![line@] + lines_from(text@, end + 1));
            }
            lines.push(line);
            proof {
                assert(lines@.map_values(|l: Vec<char>| l@) =~= done + seq![line@]);
                assert(done + (seq![line@] + lines_from(text@, end + 1)) =~= done + seq![line@]
                    + lines_from(text@, end + 1));
            }
            from = end + 1;
        }
    }
    proof {
        assert(lines_from(text@, n as int) =~= Seq::<Seq<char>>::empty());
        assert(lines@.map_values(|l: Vec<char>| l@) + Seq::<Seq<char>>::empty()
            =~= lines@.map_values(|l: Vec<char>| l@));
    }
    lines
}

/// A span of `style` with the text that `chars` spell.
pub fn make_span(chars: &Vec<char>, style: SpanStyle) -> (s: StyledSpan)
    ensures
        s@ == span(chars@, style),
{
    StyledSpan { text: text_of(chars), style }
}

/// A span of `style` with the text `text`.
pub fn fixed_span(text: &str, style: SpanStyle) -> (s: StyledSpan)
    ensures
        s@ == span(text@, style),
{
    StyledSpan { text: text.to_owned(), style }
}

/// Appends the characters of `src` to `dst`.
pub fn append(dst: &mut Vec<char>, src: &Vec<char>)
    ensures
        final(dst)@ == old(dst)@ + src@,
{
    let n = src.len();
    let mut k: usize = 0;
    assert(dst@ =~= old(dst)@ + src@.subrange(0, 0));
    while k < n
        invariant
            k <= n,
            n == src.len(),
            dst@ == old(dst)@ + src@.subrange(0, k as int),
        decreases n - k,
    {
        assert(old(dst)@ + src@.subrange(0, k + 1) =~= (old(dst)@ + src@.subrange(
            0,
            k as int,
        )).push(src[k as int]));
        dst.push(src[k]);
        k += 1;
    }
    assert(src@.subrange(0, n as int) =~= src@);
}

/// Index of the first character of `s` at or after `from` that is `stop`;
/// the length of `s` where there is none.
pub open spec fn scan_to(s: Seq<char>, from: int, stop: char) -> int
    decreases s.len() - from,
{
    if from >= s.len() {
        from
    } else if s[from] == stop {
        from
    } else {
        scan_to(s, from + 1, stop)
    }
}

/// Index of the first `**` of `s` at or after `from`; where there is none,
/// the index of the last character, or `from` if that lies behind it.
pub open spec fn scan_to_pair(s: Seq<char>, from: int) -> int
    decreases s.len() - from,
{
    if from + 1 >= s.len() {
        from
    } else if s[from] == '*' && s[from + 1] == '*' {
        from
    } else {
        scan_to_pair(s, from + 1)
    }
}

/// A scan ends at or behind where it began, and within the text.
pub proof fn lemma_scan_bounds(s: Seq<char>, from: int, stop: char)
    requires
        0 <= from <= s.len(),
    ensures
        from <= scan_to(s, from, stop) <= s.len(),
        from <= scan_to_pair(s, from) <= s.len(),
    decreases s.len() - from,
{
    if from < s.len() {
        lemma_scan_bounds(s, from + 1, stop);
    }
}

/// Index of the first character of `s` at or after `from` that is `stop`.
pub fn scan(s: &Vec<char>, from: usize, stop: char) -> (r: usize)
    requires
        from <= s.len(),
    ensures
        r == scan_to(s@, from as int, stop),
        from <= r <= s.len(),
{
    let mut i = from;
    while i < s.len() && s[i] != stop
        invariant
            from <= i <= s.len(),
            scan_to(s@, from as int, stop) == scan_to(s@, i as int, stop),
        decreases s.len() - i,
    {
        i += 1;
    }
    i
}

/// Index of the first `**` of `s` at or after `from`.
pub fn scan_pair(s: &Vec<char>, from: usize) -> (r: usize)
    requires
        from <= s.len(),
    ensures
        r == scan_to_pair(s@, from as int),
        from <= r <= s.len(),
{
    let mut i = from;
    while i < s.len() && i + 1 < s.len() && !(s[i] == '*' && s[i + 1] == '*')
        invariant
            from <= i <= s.len(),
            scan_to_pair(s@, from as int) == scan_to_pair(s@, i as int),
        decreases s.len() - i,
    {
        i += 1;
    }
    i
}

/// The plain span of the text gathered so far, if any was gathered.
pub open spec fn flushed(current: Seq<char>) -> Seq<SpanView> {
    if current.len() > 0 {
        seq![span(current, SpanStyle::Plain)]
    } else {
        Seq::empty()
    }
}

/// Whether a link begins at position `i` of `s`: a `[`, then text up to a
/// `]` that a `(` follows.
pub open spec fn link_at(s: Seq<char>, i: int) -> bool {
    let close = scan_to(s, i + 1, ']');
    0 <= i < s.len() && s[i] == '[' && close + 1 < s.len() && s[close] == ']' && s[close + 1]
        == '('
}

/// The spans of `s` from position `i` on, with `current` gathered as plain
/// text so far.
///
/// A backquote begins code that runs to the next backquote; `**` begins
/// bold text that runs to the next `**`; a single `*` begins italic text
/// that runs to the next `*`; `[text](target)` is a link, of which the text
/// is kept. What is not closed runs to the end. Every other character is
/// plain text.
pub open spec fn inline_from(s: Seq<char>, i: int, current: Seq<char>) -> Seq<SpanView>
    decreases s.len() - i,
    via inline_from_decreases
{
    if i < 0 || i >= s.len() {
        flushed(current)
    } else if s[i] == '`' {
        let end = scan_to(s, i + 1, '`');
        let next = if end < s.len() {
            end + 1
        } else {
            end
        };
        flushed(current) + seq![span(s.subrange(i + 1, end), SpanStyle::InlineCode)] + inline_from(
            s,
            next,
            Seq::empty(),
        )
    } else if i + 1 < s.len() && s[i] == '*' && s[i + 1] == '*' {
        let end = scan_to_pair(s, i + 2);
        let next = if end + 1 < s.len() {
            end + 2
        } else {
            end
        };
        flushed(current) + seq![span(s.subrange(i + 2, end), SpanStyle::Bold)] + inline_from(
            s,
            next,
            Seq::empty(),
        )
    } else if s[i] == '*' {
        let end = scan_to(s, i + 1, '*');
        let next = if end < s.len() {
            end + 1
        } else {
            end
        };
        flushed(current) + seq![span(s.subrange(i + 1, end), SpanStyle::Italic)] + inline_from(
            s,
            next,
            Seq::empty(),
        )
    } else if link_at(s, i) {
        let close = scan_to(s, i + 1, ']');
        let end = scan_to(s, close + 2, ')');
        let next = if end < s.len() {
            end + 1
        } else {
            end
        };
        flushed(current) + seq![span(s.subrange(i + 1, close), SpanStyle::Link)] + inline_from(
            s,
            next,
            Seq::empty(),
        )
    } else {
        inline_from(s, i + 1, current.push(s[i]))
    }
}

#[via_fn]
proof fn inline_from_decreases(s: Seq<char>, i: int, current: Seq<char>) {
    if 0 <= i < s.len() {
        lemma_scan_bounds(s, i + 1, '`');
        lemma_scan_bounds(s, i + 1, '*');
        lemma_scan_bounds(s, i + 1, ']');
        if i + 1 < s.len() {
            lemma_scan_bounds(s, i + 2, '*');
        }
        let close = scan_to(s, i + 1, ']');
        if close + 1 < s.len() {
            lemma_scan_bounds(s, close + 2, ')');
        }
    }
}

/// The spans of a line of running text; a line without any text is one
/// empty plain span.
pub open spec fn inline_line(s: Seq<char>) -> Seq<SpanView> {
    let spans = inline_from(s, 0, Seq::empty());
    if spans.len() == 0 {
        seq![span(Seq::empty(), SpanStyle::Plain)]
    } else {
        spans
    }
}

/// Puts the text gathered so far into `spans` as a plain span, if any was
/// gathered.
fn flush(spans: &mut Vec<StyledSpan>, current: &mut Vec<char>)
    ensures
        final(spans)@.map_values(|s: StyledSpan| s@) == old(spans)@.map_values(|s: StyledSpan| s@)
            + flushed(old(current)@),
        final(current)@ == Seq::<char>::empty(),
{
    let ghost before = spans@.map_values(|s: StyledSpan| s@);
    if current.len() > 0 {
        let piece = make_span(current, SpanStyle::Plain);
        spans.push(piece);
        assert(spans@.map_values(|s: StyledSpan| s@) =~= before + flushed(old(current)@));
        current.clear();
    } else {
        assert(before + flushed(old(current)@) =~= before);
        assert(current@ =~= Seq::<char>::empty());
    }
}

/// Puts a span of `style` with the characters of `s` from `from` up to `to`
/// into `spans`.
fn push_piece(spans: &mut Vec<StyledSpan>, s: &Vec<char>, from: usize, to: usize, style: SpanStyle)
    requires
        from <= to <= s.len(),
    ensures
        final(spans)@.map_values(|s: StyledSpan| s@) == old(spans)@.map_values(|s: StyledSpan| s@)
            + seq![span(s@.subrange(from as int, to as int), style)],
{
    let ghost before = spans@.map_values(|s: StyledSpan| s@);
    let piece = slice(s, from, to);
    spans.push(make_span(&piece, style));
    assert(spans@.map_values(|s: StyledSpan| s@) =~= before + seq![
        span(s@.subrange(from as int, to as int), style),
    ]);
}

/// The spans of a line of running text, given as its characters.
pub fn inline_spans(s: &Vec<char>) -> (line: StyledLine)
    ensures
        line@ == inline_line(s@),
{
    let n = s.len();
    let mut spans: Vec<StyledSpan> = Vec::new();
    let mut current: Vec<char> = Vec::new();
    let mut i: usize = 0;
    let ghost whole = inline_from(s@, 0, Seq::empty());
    assert(spans@.map_values(|s: StyledSpan| s@) + whole =~= whole);
    while i < n
        invariant
            i <= n,
            n == s.len(),
            whole == spans@.map_values(|s: StyledSpan| s@) + inline_from(s@, i as int, current@),
        decreases n - i,
    {
        let ghost done = spans@.map_values(|s: StyledSpan| s@);
        let ghost cur = current@;
        let ghost here = inline_from(s@, i as int, cur);
        let c = s[i];
        if c == '`' {
            let end = scan(s, i + 1, '`');
            let next = if end < n {
                end + 1
            } else {
                end
            };
            flush(&mut spans, &mut current);
            push_piece(&mut spans, s, i + 1, end, SpanStyle::InlineCode);
            proof {
                let piece = seq![span(s@.subrange(i + 1, end as int), SpanStyle::InlineCode)];
                let tail = inline_from(s@, next as int, Seq::empty());
                assert(here == flushed(cur) + piece + tail);
                assert(done + (flushed(cur) + piece + tail) =~= done + flushed(cur) + piece + tail);
            }
            i = next;
        } else if i + 1 < n && c == '*' && s[i + 1] == '*' {
            let end = scan_pair(s, i + 2);
            let next = if end < n && end + 1 < n {
                end + 2
            } else {
                end
            };
            flush(&mut spans, &mut current);
            push_piece(&mut spans, s, i + 2, end, SpanStyle::Bold);
            proof {
                let piece = seq![span(s@.subrange(i + 2, end as int), SpanStyle::Bold)];
                let tail = inline_from(s@, next as int, Seq::empty());
                assert(here == flushed(cur) + piece + tail);
                assert(done + (flushed(cur) + piece + tail) =~= done + flushed(cur) + piece + tail);
            }
            i = next;
        } else if c == '*' {
            let end = scan(s, i + 1, '*');
            let next = if end < n {
                end + 1
            } else {
                end
            };
            flush(&mut spans, &mut current);
            push_piece(&mut spans, s, i + 1, end, SpanStyle::Italic);
            proof {
                let piece = seq![span(s@.subrange(i + 1, end as int), SpanStyle::Italic)];
                let tail = inline_from(s@, next as int, Seq::empty());
                assert(here == flushed(cur) + piece + tail);
                assert(done + (flushed(cur) + piece + tail) =~= done + flushed(cur) + piece + tail);
            }
            i = next;
        } else {
            let close = if c == '[' {
                scan(s, i + 1, ']')
            } else {
                n
            };
            if c == '[' && close < n && close + 1 < n && s[close] == ']' && s[close + 1] == '(' {
                let end = scan(s, close + 2, ')');
                let next = if end < n {
                    end + 1
                } else {
                    end
                };
                flush(&mut spans, &mut current);
                push_piece(&mut spans, s, i + 1, close, SpanStyle::Link);
                proof {
                    let piece = seq![span(s@.subrange(i + 1, close as int), SpanStyle::Link)];
                    let tail = inline_from(s@, next as int, Seq::empty());
                    assert(link_at(s@, i as int));
                    assert(here == flushed(cur) + piece + tail);
                    assert(done + (flushed(cur) + piece + tail) =~= done + flushed(cur) + piece
                        + tail);
                }
                i = next;
            } else {
                proof {
                    assert(!link_at(s@, i as int));
                    assert(here == inline_from(s@, i + 1, cur.push(c)));
                }
                current.push(c);
                i += 1;
            }
        }
    }
    let ghost done = spans@.map_values(|s: StyledSpan| s@);
    assert(inline_from(s@, n as int, current@) == flushed(current@));
    flush(&mut spans, &mut current);
    if spans.len() == 0 {
        let nothing: Vec<char> = Vec::new();
        spans.push(make_span(&nothing, SpanStyle::Plain));
        assert(spans@.map_values(|s: StyledSpan| s@) =~= seq![
            span(Seq::<char>::empty(), SpanStyle::Plain),
        ]);
    }
    StyledLine { spans }
}

/// Whether `at` is the first position at which `s` holds `pat`.
pub open spec fn first_occurrence(s: Seq<char>, pat: Seq<char>, at: int) -> bool {
    holds_at(s, at, pat) && forall|j: int| 0 <= j < at ==> !holds_at(s, j, pat)
}

/// The first position at which `s` holds `pat`, where it holds it anywhere.
pub open spec fn first_of(s: Seq<char>, pat: Seq<char>) -> int {
    choose|at: int| first_occurrence(s, pat, at)
}

/// There is one first occurrence at most.
pub proof fn lemma_first_occurrence(s: Seq<char>, pat: Seq<char>, at: int)
    requires
        first_occurrence(s, pat, at),
    ensures
        first_of(s, pat) == at,
{
    let other = first_of(s, pat);
    assert(first_occurrence(s, pat, other));
    if other < at {
        assert(!holds_at(s, other, pat));
    }
    if at < other {
        assert(!holds_at(s, at, pat));
    }
}

/// The spans of the row of a table from position `from` on: the cells as
/// plain spans, with a bar in place of each `|` that parts two of them.
/// `first` says whether the cell at `from` is the first of the row.
pub open spec fn row_from(s: Seq<char>, from: int, first: bool) -> Seq<SpanView>
    decreases s.len() - from,
    via row_from_decreases
{
    let end = scan_to(s, from, '|');
    let bar = if first {
        Seq::<SpanView>::empty()
    } else {
        seq![span("│"@, SpanStyle::Muted)]
    };
    let cell = bar + seq![span(s.subrange(from, end), SpanStyle::Plain)];
    if from < 0 || end >= s.len() {
        cell
    } else {
        cell + row_from(s, end + 1, false)
    }
}

#[via_fn]
proof fn row_from_decreases(s: Seq<char>, from: int, first: bool) {
    if 0 <= from <= s.len() {
        lemma_scan_bounds(s, from, '|');
    }
}

/// The text of a rule.
pub open spec fn rule_text() -> Seq<char> {
    "────────────────────────────────────────"@
}

/// Whether `line` is a rule: but for white space at its ends, three or
/// more of `-`, of `*` or of `_` and nothing else.
pub open spec fn is_rule(line: Seq<char>) -> bool {
    let t = trimmed(line);
    t.len() >= 3 && (all_are(t, '-') || all_are(t, '*') || all_are(t, '_'))
}

/// Whether `line` is the row of a table that parts its head from its body.
pub open spec fn is_table_rule(line: Seq<char>) -> bool {
    occurs(line, "---"@) || occurs(line, ":-"@) || occurs(line, "-:"@)
}

/// Whether `line` is an item of a numbered list: its first `. ` stands
/// behind three digits at most and nothing else.
pub open spec fn is_numbered(line: Seq<char>) -> bool {
    occurs(line, ". "@) && first_of(line, ". "@) <= 3 && digits_upto(line, first_of(line, ". "@))
}

/// `s` from position `from` on.
pub open spec fn after(s: Seq<char>, from: int) -> Seq<char> {
    s.subrange(from, s.len() as int)
}

/// The spans of one line outside a code block.
///
/// The first of these that fits decides: a rule; a header of level three,
/// two or one; a quote; the row of a table; an item of a list; an indented
/// item; a numbered item; running text.
pub open spec fn line_spans(line: Seq<char>) -> Seq<SpanView> {
    if is_rule(line) {
        seq![span(rule_text(), SpanStyle::Muted)]
    } else if begins_with(line, "### "@) {
        seq![span(after(line, "### "@.len() as int), SpanStyle::Header)]
    } else if begins_with(line, "## "@) {
        seq![span(after(line, "## "@.len() as int), SpanStyle::Header)]
    } else if begins_with(line, "# "@) {
        seq![span(after(line, "# "@.len() as int), SpanStyle::Header)]
    } else if begins_with(line, "> "@) {
        seq![
            span("│ "@, SpanStyle::Muted),
            span(after(line, "> "@.len() as int), SpanStyle::Quote),
        ]
    } else if line == ">"@ {
        seq![span("│"@, SpanStyle::Muted)]
    } else if begins_with(line, "|"@) {
        if is_table_rule(line) {
            seq![span(line, SpanStyle::Muted)]
        } else {
            row_from(line, 0, true)
        }
    } else if begins_with(line, "- "@) || begins_with(line, "* "@) {
        seq![
            span("• "@, SpanStyle::Bullet),
            span(after(line, "- "@.len() as int), SpanStyle::Plain),
        ]
    } else if begins_with(line, "  - "@) || begins_with(line, "  * "@) {
        seq![
            span("  "@, SpanStyle::Plain),
            span("◦ "@, SpanStyle::Bullet),
            span(after(line, "  - "@.len() as int), SpanStyle::Plain),
        ]
    } else if is_numbered(line) {
        let dot = first_of(line, ". "@);
        seq![
            span(line.subrange(0, dot) + ". "@, SpanStyle::Bullet),
            span(after(line, dot + ". "@.len()), SpanStyle::Plain),
        ]
    } else {
        inline_line(line)
    }
}

/// The spans of the row of a table, given as its characters.
fn row_spans(s: &Vec<char>) -> (line: StyledLine)
    ensures
        line@ == row_from(s@, 0, true),
{
    let n = s.len();
    let mut spans: Vec<StyledSpan> = Vec::new();
    let mut from: usize = 0;
    let ghost whole = row_from(s@, 0, true);
    assert(spans@.map_values(|s: StyledSpan| s@) + whole =~= whole);
    loop
        invariant
            from <= n,
            n == s.len(),
            whole == row_from(s@, 0, true),
            whole == spans@.map_values(|s: StyledSpan| s@) + row_from(
                s@,
                from as int,
                spans.len() == 0,
            ),
        decreases n - from,
    {
        let ghost done = spans@.map_values(|s: StyledSpan| s@);
        let ghost first = spans.len() == 0;
        let ghost here = row_from(s@, from as int, first);
        let end = scan(s, from, '|');
        if spans.len() > 0 {
            spans.push(fixed_span("│", SpanStyle::Muted));
        }
        let ghost bar = if first {
            Seq::<SpanView>::empty()
        } else {
            seq![span("│"@, SpanStyle::Muted)]
        };
        assert(spans@.map_values(|s: StyledSpan| s@) =~= done + bar);
        push_piece(&mut spans, s, from, end, SpanStyle::Plain);
        let ghost cell = bar + seq![span(s@.subrange(from as int, end as int), SpanStyle::Plain)];
        assert(spans@.map_values(|s: StyledSpan| s@) =~= done + cell);
        if end >= n {
            assert(here == cell);
            return StyledLine { spans };
        }
        proof {
            assert(here == cell + row_from(s@, end + 1, false));
            assert(done + (cell + row_from(s@, end + 1, false)) =~= done + cell + row_from(
                s@,
                end + 1,
                false,
            ));
        }
        from = end + 1;
    }
}

/// A line of the spans given.
pub fn line_of_one(a: StyledSpan) -> (line: StyledLine)
    ensures
        line@ == seq![a@],
{
    let mut spans: Vec<StyledSpan> = Vec::new();
    spans.push(a);
    assert(spans@.map_values(|s: StyledSpan| s@) =~= seq![a@]);
    StyledLine { spans }
}

/// A line of the spans given.
pub fn line_of_two(a: StyledSpan, b: StyledSpan) -> (line: StyledLine)
    ensures
        line@ == seq![a@, b@],
{
    let mut spans: Vec<StyledSpan> = Vec::new();
    spans.push(a);
    spans.push(b);
    assert(spans@.map_values(|s: StyledSpan| s@) =~= seq![a@, b@]);
    StyledLine { spans }
}

/// A line of the spans given.
pub fn line_of_three(a: StyledSpan, b: StyledSpan, c: StyledSpan) -> (line: StyledLine)
    ensures
        line@ == seq![a@, b@, c@],
{
    let mut spans: Vec<StyledSpan> = Vec::new();
    spans.push(a);
    spans.push(b);
    spans.push(c);
    assert(spans@.map_values(|s: StyledSpan| s@) =~= seq![a@, b@, c@]);
    StyledLine { spans }
}

/// A span of `style` with what follows the first `from` characters of `s`.
fn rest_span(s: &Vec<char>, from: usize, style: SpanStyle) -> (r: StyledSpan)
    requires
        from <= s.len(),
    ensures
        r@ == span(after(s@, from as int), style),
{
    let piece = slice(s, from, s.len());
    make_span(&piece, style)
}

/// Whether `s` begins with `pat`; if so, the length of `pat`.
fn prefix_len(s: &Vec<char>, pat: &str) -> (r: Option<usize>)
    ensures
        match r {
            Some(len) => begins_with(s@, pat@) && len == pat@.len() && len <= s.len(),
            None => !begins_with(s@, pat@),
        },
{
    let p = chars_of(pat);
    if has_at(s, 0, &p) {
        Some(p.len())
    } else {
        None
    }
}

/// Whether `pat` occurs in `s`.
fn has(s: &Vec<char>, pat: &str) -> (r: bool)
    ensures
        r == occurs(s@, pat@),
{
    let p = chars_of(pat);
    match find(s, &p) {
        Some(at) => true,
        None => false,
    }
}

/// Whether `line` is a rule.
fn rule(line: &Vec<char>) -> (r: bool)
    ensures
        r == is_rule(line@),
{
    let t = trim(line);
    t.len() >= 3 && (every(&t, '-') || every(&t, '*') || every(&t, '_'))
}

/// The spans of one line outside a code block, given as its characters.
pub fn line_to_spans(line: &Vec<char>) -> (r: StyledLine)
    ensures
        r@ == line_spans(line@),
{
    if rule(line) {
        return line_of_one(fixed_span("────────────────────────────────────────", SpanStyle::Muted));
    }
    if let Some(len) = prefix_len(line, "### ") {
        return line_of_one(rest_span(line, len, SpanStyle::Header));
    }
    if let Some(len) = prefix_len(line, "## ") {
        return line_of_one(rest_span(line, len, SpanStyle::Header));
    }
    if let Some(len) = prefix_len(line, "# ") {
        return line_of_one(rest_span(line, len, SpanStyle::Header));
    }
    if let Some(len) = prefix_len(line, "> ") {
        return line_of_two(
            fixed_span("│ ", SpanStyle::Muted),
            rest_span(line, len, SpanStyle::Quote),
        );
    }
    let lone = chars_of(">");
    if has_at(line, 0, &lone) && line.len() == lone.len() {
        assert(line@ =~= ">"@);
        return line_of_one(fixed_span("│", SpanStyle::Muted));
    }
    assert(line@ != ">"@) by {
        if line@ == ">"@ {
            assert(line@.subrange(0, line@.len() as int) =~= line@);
        }
    }
    if let Some(_) = prefix_len(line, "|") {
        if has(line, "---") || has(line, ":-") || has(line, "-:") {
            return line_of_one(make_span(line, SpanStyle::Muted));
        }
        return row_spans(line);
    }
    let dash = prefix_len(line, "- ");
    let star = prefix_len(line, "* ");
    if dash.is_some() || star.is_some() {
        let len = chars_of("- ").len();
        proof {
            reveal_strlit("- ");
            reveal_strlit("* ");
        }
        return line_of_two(
            fixed_span("• ", SpanStyle::Bullet),
            rest_span(line, len, SpanStyle::Plain),
        );
    }
    let dash = prefix_len(line, "  - ");
    let star = prefix_len(line, "  * ");
    if dash.is_some() || star.is_some() {
        let len = chars_of("  - ").len();
        proof {
            reveal_strlit("  - ");
            reveal_strlit("  * ");
        }
        return line_of_three(
            fixed_span("  ", SpanStyle::Plain),
            fixed_span("◦ ", SpanStyle::Bullet),
            rest_span(line, len, SpanStyle::Plain),
        );
    }
    let dot = chars_of(". ");
    match find(line, &dot) {
        Some(at) => {
            proof {
                lemma_first_occurrence(line@, ". "@, at as int);
            }
            if at <= 3 && leading_digits(line, at) {
                let mut mark = slice(line, 0, at);
                append(&mut mark, &dot);
                return line_of_two(
                    make_span(&mark, SpanStyle::Bullet),
                    rest_span(line, at + dot.len(), SpanStyle::Plain),
                );
            }
        },
        None => {},
    }
    inline_spans(line)
}

/// The text of the line that names the language of a code block.
pub open spec fn tag_text(language: Seq<char>) -> Seq<char> {
    "── "@ + language + " ──"@
}

/// The lines of spans of the lines of markdown from line `k` on.
/// `in_code` says whether line `k` stands within a code block.
///
/// A line that begins with three backquotes opens or closes a code block
/// and is not shown, but that an opening one which names a language gives
/// a line with that name. A line within a code block is shown as it is,
/// behind two spaces. Every other line is shown as `line_spans` says.
pub open spec fn lines_from_line(lines: Seq<Seq<char>>, k: int, in_code: bool) -> Seq<
    Seq<SpanView>,
>
    decreases lines.len() - k,
{
    if k < 0 || k >= lines.len() {
        Seq::empty()
    } else if begins_with(lines[k], "```"@) {
        if in_code {
            lines_from_line(lines, k + 1, false)
        } else {
            let language = trimmed(after(lines[k], "```"@.len() as int));
            let tag = if language.len() > 0 {
                seq![seq![span(tag_text(language), SpanStyle::Muted)]]
            } else {
                Seq::empty()
            };
            tag + lines_from_line(lines, k + 1, true)
        }
    } else if in_code {
        seq![seq![span("  "@ + lines[k], SpanStyle::CodeBlock)]] + lines_from_line(
            lines,
            k + 1,
            true,
        )
    } else {
        seq![line_spans(lines[k])] + lines_from_line(lines, k + 1, false)
    }
}

/// The lines of spans that show a text of markdown.
pub open spec fn markdown_lines(text: Seq<char>) -> Seq<Seq<SpanView>> {
    lines_from_line(lines_of(text), 0, false)
}

/// The lines of spans that show the markdown `text`.
pub fn markdown_to_lines(text: &str) -> (out: Vec<StyledLine>)
    ensures
        lines_view(out@) == markdown_lines(text@),
{
    let chars = chars_of(text);
    let lines = split_lines(&chars);
    let ghost all = lines@.map_values(|l: Vec<char>| l@);
    let n = lines.len();
    let mut out: Vec<StyledLine> = Vec::new();
    let mut in_code = false;
    let mut k: usize = 0;
    let ghost whole = lines_from_line(all, 0, false);
    assert(lines_view(out@) + whole =~= whole);
    while k < n
        invariant
            k <= n,
            n == lines.len(),
            all == lines@.map_values(|l: Vec<char>| l@),
            whole == lines_view(out@) + lines_from_line(all, k as int, in_code),
        decreases n - k,
    {
        let ghost done = lines_view(out@);
        let ghost rest = lines_from_line(all, k + 1, in_code);
        let line = &lines[k];
        assert(all[k as int] == line@);
        match prefix_len(line, "```") {
            Some(len) => {
                if in_code {
                    in_code = false;
                } else {
                    let language = trim(&slice(line, len, line.len()));
                    if language.len() > 0 {
                        let mut tag = chars_of("── ");
                        append(&mut tag, &language);
                        append(&mut tag, &chars_of(" ──"));
                        let shown = line_of_one(make_span(&tag, SpanStyle::Muted));
                        out.push(shown);
                        proof {
                            let one = seq![seq![span(tag_text(language@), SpanStyle::Muted)]];
                            let tail = lines_from_line(all, k + 1, true);
                            assert(lines_view(out@) =~= done + one);
                            assert(done + (one + tail) =~= done + one + tail);
                        }
                    } else {
                        assert(Seq::<Seq<SpanView>>::empty() + lines_from_line(all, k + 1, true)
                            =~= lines_from_line(all, k + 1, true));
                    }
                    in_code = true;
                }
            },
            None => {
                if in_code {
                    let mut shown = chars_of("  ");
                    append(&mut shown, line);
                    out.push(line_of_one(make_span(&shown, SpanStyle::CodeBlock)));
                    proof {
                        let one = seq![seq![span("  "@ + line@, SpanStyle::CodeBlock)]];
                        assert(lines_view(out@) =~= done + one);
                        assert(done + (one + rest) =~= done + one + rest);
                    }
                } else {
                    out.push(line_to_spans(line));
                    proof {
                        let one = seq![line_spans(line@)];
                        assert(lines_view(out@) =~= done + one);
                        assert(done + (one + rest) =~= done + one + rest);
                    }
                }
            },
        }
        k += 1;
    }
    assert(lines_view(out@) + Seq::<Seq<SpanView>>::empty() =~= lines_view(out@));
    out
}

/// The spans of one line of markdown outside a code block.
pub fn markdown_line_to_spans(line: &str) -> (r: StyledLine)
    ensures
        r@ == line_spans(line@),
{
    line_to_spans(&chars_of(line))
}

/// The spans of a line of running text.
pub fn parse_inline_markdown_to_line(text: &str) -> (r: StyledLine)
    ensures
        r@ == inline_line(text@),
{
    inline_spans(&chars_of(text))
}

/// The text of a list item as it is shown: the text itself.
pub fn parse_inline_markdown(text: &str) -> (r: String)
    ensures
        r@ == text@,
{
    text.to_owned()
}

} // verus!
