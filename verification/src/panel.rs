//! What the detail panel shows of an issue, line by line.

use vstd::prelude::*;
use crate::bd::{Dependency, Issue};
use crate::edit::{chars_of, EditField, EditState, EditView};
use crate::idset::IdSet;
use crate::markdown::{
    append, fixed_span, line_of_one, line_of_three, line_of_two, lines_view, make_span,
    markdown_lines, markdown_to_lines, scan, scan_to, slice, span, SpanStyle, SpanView,
    StyledLine, StyledSpan,
};
use crate::text::same_text;

verus! {

/// The character of the digit `d`.
pub open spec fn digit(d: int) -> char {
    if d == 0 {
        '0'
    } else if d == 1 {
        '1'
    } else if d == 2 {
        '2'
    } else if d == 3 {
        '3'
    } else if d == 4 {
        '4'
    } else if d == 5 {
        '5'
    } else if d == 6 {
        '6'
    } else if d == 7 {
        '7'
    } else if d == 8 {
        '8'
    } else {
        '9'
    }
}

/// The decimal numeral of `n`, without leading zeros.
pub open spec fn decimal(n: nat) -> Seq<char>
    decreases n,
{
    if n < 10 {
        seq![digit(n as int)]
    } else {
        decimal(n / 10).push(digit((n % 10) as int))
    }
}

/// The decimal numeral of `n`, with a minus sign where it is negative.
pub open spec fn signed_decimal(n: int) -> Seq<char> {
    if n < 0 {
        seq!['-'] + decimal((-n) as nat)
    } else {
        decimal(n as nat)
    }
}

/// The character of the digit `d`.
fn digit_char(d: u64) -> (c: char)
    requires
        d < 10,
    ensures
        c == digit(d as int),
{
    if d == 0 {
        '0'
    } else if d == 1 {
        '1'
    } else if d == 2 {
        '2'
    } else if d == 3 {
        '3'
    } else if d == 4 {
        '4'
    } else if d == 5 {
        '5'
    } else if d == 6 {
        '6'
    } else if d == 7 {
        '7'
    } else if d == 8 {
        '8'
    } else {
        '9'
    }
}

/// The decimal numeral of `n`.
pub fn decimal_chars(n: u64) -> (r: Vec<char>)
    ensures
        r@ == decimal(n as nat),
    decreases n,
{
    if n < 10 {
        let mut r: Vec<char> = Vec::new();
        r.push(digit_char(n));
        assert(r@ =~= seq![digit(n as int)]);
        r
    } else {
        let mut r = decimal_chars(n / 10);
        r.push(digit_char(n % 10));
        r
    }
}

/// The decimal numeral of `n`.
pub fn signed_decimal_chars(n: i32) -> (r: Vec<char>)
    ensures
        r@ == signed_decimal(n as int),
{
    if n < 0 {
        let mut r: Vec<char> = Vec::new();
        r.push('-');
        let size: u64 = (-(n as i64)) as u64;
        append(&mut r, &decimal_chars(size));
        assert(r@ =~= seq!['-'] + decimal((-n) as nat));
        r
    } else {
        decimal_chars(n as u64)
    }
}

/// The texts of `parts` with `sep` between each two of them.
pub open spec fn joined(parts: Seq<Seq<char>>, sep: Seq<char>) -> Seq<char>
    decreases parts.len(),
{
    if parts.len() == 0 {
        Seq::empty()
    } else if parts.len() == 1 {
        parts[0]
    } else {
        joined(parts.drop_last(), sep) + sep + parts.last()
    }
}

/// The texts of `parts` with `sep` between each two of them.
pub fn join(parts: &Vec<String>, sep: &str) -> (r: Vec<char>)
    ensures
        r@ == joined(parts.deep_view(), sep@),
{
    let between = chars_of(sep);
    let n = parts.len();
    let mut r: Vec<char> = Vec::new();
    let mut k: usize = 0;
    assert(parts.deep_view().subrange(0, 0) =~= Seq::<Seq<char>>::empty());
    while k < n
        invariant
            k <= n,
            n == parts.len(),
            between@ == sep@,
            r@ == joined(parts.deep_view().subrange(0, k as int), sep@),
        decreases n - k,
    {
        let ghost upto = parts.deep_view().subrange(0, k + 1);
        proof {
            assert(upto.drop_last() =~= parts.deep_view().subrange(0, k as int));
            assert(upto.last() == parts[k as int]@);
        }
        if k > 0 {
            append(&mut r, &between);
        }
        append(&mut r, &chars_of(parts[k].as_str()));
        proof {
            if k == 0 {
                assert(r@ =~= upto[0]);
            }
        }
        k += 1;
    }
    assert(parts.deep_view().subrange(0, n as int) =~= parts.deep_view());
    r
}

/// The identifiers of the blocking edges among `deps`, in order.
pub open spec fn blocker_ids(deps: Seq<Dependency>) -> Seq<Seq<char>>
    decreases deps.len(),
{
    if deps.len() == 0 {
        Seq::empty()
    } else if deps.last().blocks() {
        blocker_ids(deps.drop_last()).push(deps.last().id@)
    } else {
        blocker_ids(deps.drop_last())
    }
}

/// A line without text.
pub open spec fn blank() -> Seq<SpanView> {
    seq![span(Seq::empty(), SpanStyle::Plain)]
}

/// The way the priority `priority` is drawn.
pub open spec fn priority_style(priority: i32) -> SpanStyle {
    if priority == 0 {
        SpanStyle::PriorityZero
    } else if priority == 1 {
        SpanStyle::PriorityOne
    } else if priority == 2 {
        SpanStyle::PriorityTwo
    } else if priority == 3 {
        SpanStyle::PriorityThree
    } else {
        SpanStyle::Muted
    }
}

/// The lines that name the issue: title, identifier and type, status and
/// priority.
pub open spec fn head_lines(issue: Issue) -> Seq<Seq<SpanView>> {
    seq![
        seq![span("Title: "@, SpanStyle::Bold), span(issue.title@, SpanStyle::Plain)],
        blank(),
        seq![
            span("ID: "@, SpanStyle::Bold),
            span(issue.id@, SpanStyle::Plain),
            span("  "@, SpanStyle::Plain),
            span("Type: "@, SpanStyle::Bold),
            span(issue.issue_type@, SpanStyle::Plain),
        ],
        seq![
            span("Status: "@, SpanStyle::Bold),
            span(issue.status@, SpanStyle::Plain),
            span("  "@, SpanStyle::Plain),
            span("Priority: "@, SpanStyle::Bold),
            span("P"@ + signed_decimal(issue.priority as int), priority_style(issue.priority)),
        ],
    ]
}

/// The line that says whether the issue is ready or blocked, and by what;
/// none for a closed issue.
pub open spec fn state_lines(issue: Issue, ready: Set<Seq<char>>) -> Seq<Seq<SpanView>> {
    if issue.closed() {
        Seq::empty()
    } else if ready.contains(issue.id@) {
        seq![seq![span("READY"@, SpanStyle::Ready)]]
    } else if blocker_ids(issue.edges()).len() == 0 {
        seq![seq![span("BLOCKED"@, SpanStyle::Blocked)]]
    } else {
        seq![
            seq![
                span("BLOCKED"@, SpanStyle::Blocked),
                span(" by "@ + joined(blocker_ids(issue.edges()), ", "@), SpanStyle::BlockedBy),
            ],
        ]
    }
}

/// The lines of a text of markdown under the heading `title`, with a blank
/// line behind them; none where there is no text.
pub open spec fn text_lines(title: Seq<char>, text: Option<String>) -> Seq<Seq<SpanView>> {
    match text {
        Some(t) => if t@.len() > 0 {
            seq![seq![span(title, SpanStyle::Bold)]] + markdown_lines(t@) + seq![blank()]
        } else {
            Seq::empty()
        },
        None => Seq::empty(),
    }
}

/// The line of the labels, with a blank line behind it; none where there is
/// no label.
pub open spec fn label_lines(labels: Option<Vec<String>>) -> Seq<Seq<SpanView>> {
    match labels {
        Some(l) => if l.len() > 0 {
            seq![
                seq![
                    span("Labels: "@, SpanStyle::Bold),
                    span(joined(l.deep_view(), ", "@), SpanStyle::Plain),
                ],
                blank(),
            ]
        } else {
            Seq::empty()
        },
        None => Seq::empty(),
    }
}

/// The text of the line of one dependency.
pub open spec fn dependency_text(d: Dependency) -> Seq<char> {
    "  "@ + d.id@ + " ("@ + (match d.dependency_type {
        Some(t) => t@,
        None => "unknown"@,
    }) + ") - "@ + d.title@
}

/// The text of the line of one dependent.
pub open spec fn dependent_text(d: Dependency) -> Seq<char> {
    "  "@ + d.id@ + " - "@ + d.title@
}

/// One plain line for each of the first `upto` of `deps`; `full` says
/// whether the line names the kind of the edge.
pub open spec fn edge_lines(deps: Seq<Dependency>, full: bool, upto: int) -> Seq<Seq<SpanView>>
    decreases upto,
{
    if upto <= 0 {
        Seq::empty()
    } else {
        edge_lines(deps, full, upto - 1).push(
            seq![
                span(
                    if full {
                        dependency_text(deps[upto - 1])
                    } else {
                        dependent_text(deps[upto - 1])
                    },
                    SpanStyle::Plain,
                ),
            ],
        )
    }
}

/// The lines of a list of edges under the heading `title`, with a blank
/// line behind them; none where there is no edge.
pub open spec fn edge_section(title: Seq<char>, deps: Option<Vec<Dependency>>, full: bool) -> Seq<
    Seq<SpanView>,
> {
    match deps {
        Some(d) => if d.len() > 0 {
            seq![seq![span(title, SpanStyle::Bold)]] + edge_lines(d@, full, d.len() as int) + seq![
                blank(),
            ]
        } else {
            Seq::empty()
        },
        None => Seq::empty(),
    }
}

/// The two lines of the time stamps.
pub open spec fn stamp_lines(issue: Issue) -> Seq<Seq<SpanView>> {
    seq![
        seq![span("Created: "@, SpanStyle::Muted), span(issue.created_at@, SpanStyle::Muted)],
        seq![span("Updated: "@, SpanStyle::Muted), span(issue.updated_at@, SpanStyle::Muted)],
    ]
}

/// What the detail panel shows of an issue: what names it; whether it is
/// ready or blocked; its description; its labels; its notes; what it depends
/// on; what depends on it; its time stamps.
pub open spec fn detail_lines(issue: Issue, ready: Set<Seq<char>>) -> Seq<Seq<SpanView>> {
    head_lines(issue) + state_lines(issue, ready) + seq![blank()] + text_lines(
        "Description:"@,
        issue.description,
    ) + label_lines(issue.labels) + text_lines("Notes:"@, issue.notes) + edge_section(
        "Dependencies:"@,
        issue.dependencies,
        true,
    ) + edge_section("Children:"@, issue.dependents, false) + stamp_lines(issue)
}

/// Appends `more` to `out`.
fn extend_lines(out: &mut Vec<StyledLine>, more: Vec<StyledLine>)
    ensures
        lines_view(final(out)@) == lines_view(old(out)@) + lines_view(more@),
{
    let mut more = more;
    let ghost all = lines_view(more@);
    let ghost start = lines_view(out@);
    out.append(&mut more);
    assert(lines_view(out@) =~= start + all);
}

/// Appends one line to `out`.
fn push_line(out: &mut Vec<StyledLine>, line: StyledLine)
    ensures
        lines_view(final(out)@) == lines_view(old(out)@) + seq![line@],
{
    let ghost start = lines_view(out@);
    out.push(line);
    assert(lines_view(out@) =~= start + seq![line@]);
}

/// A line without text.
fn blank_line() -> (line: StyledLine)
    ensures
        line@ == blank(),
{
    let nothing: Vec<char> = Vec::new();
    line_of_one(make_span(&nothing, SpanStyle::Plain))
}

/// A line of the spans given.
fn line_of_spans(spans: Vec<StyledSpan>) -> (line: StyledLine)
    ensures
        line@ == spans@.map_values(|s: StyledSpan| s@),
{
    StyledLine { spans }
}

/// The identifiers of the blocking edges of `issue`, in order.
fn blocking_ids(issue: &Issue) -> (r: Vec<String>)
    ensures
        r.deep_view() == blocker_ids(issue.edges()),
{
    let mut r: Vec<String> = Vec::new();
    match &issue.dependencies {
        Some(deps) => {
            let n = deps.len();
            let mut k: usize = 0;
            assert(r.deep_view() =~= blocker_ids(deps@.subrange(0, 0)));
            while k < n
                invariant
                    k <= n,
                    n == deps.len(),
                    r.deep_view() == blocker_ids(deps@.subrange(0, k as int)),
                decreases n - k,
            {
                let ghost before = r.deep_view();
                proof {
                    let upto = deps@.subrange(0, k + 1);
                    assert(upto.drop_last() =~= deps@.subrange(0, k as int));
                    assert(upto.last() == deps[k as int]);
                }
                if deps[k].is_blocking() {
                    r.push(deps[k].id.clone());
                    assert(r.deep_view() =~= before.push(deps[k as int].id@));
                }
                k += 1;
            }
            assert(deps@.subrange(0, n as int) =~= deps@);
        },
        None => {
            assert(r.deep_view() =~= Seq::<Seq<char>>::empty());
        },
    }
    r
}

/// The way the priority `priority` is drawn.
fn style_of_priority(priority: i32) -> (s: SpanStyle)
    ensures
        s == priority_style(priority),
{
    if priority == 0 {
        SpanStyle::PriorityZero
    } else if priority == 1 {
        SpanStyle::PriorityOne
    } else if priority == 2 {
        SpanStyle::PriorityTwo
    } else if priority == 3 {
        SpanStyle::PriorityThree
    } else {
        SpanStyle::Muted
    }
}

fn head(issue: &Issue) -> (out: Vec<StyledLine>)
    ensures
        lines_view(out@) == head_lines(*issue),
{
    let mut out: Vec<StyledLine> = Vec::new();
    out.push(
        line_of_two(
            fixed_span("Title: ", SpanStyle::Bold),
            fixed_span(issue.title.as_str(), SpanStyle::Plain),
        ),
    );
    out.push(blank_line());
    let mut names: Vec<StyledSpan> = Vec::new();
    names.push(fixed_span("ID: ", SpanStyle::Bold));
    names.push(fixed_span(issue.id.as_str(), SpanStyle::Plain));
    names.push(fixed_span("  ", SpanStyle::Plain));
    names.push(fixed_span("Type: ", SpanStyle::Bold));
    names.push(fixed_span(issue.issue_type.as_str(), SpanStyle::Plain));
    let names = line_of_spans(names);
    assert(names@ =~= head_lines(*issue)[2]);
    out.push(names);
    let mut numeral = chars_of("P");
    append(&mut numeral, &signed_decimal_chars(issue.priority));
    let mut state: Vec<StyledSpan> = Vec::new();
    state.push(fixed_span("Status: ", SpanStyle::Bold));
    state.push(fixed_span(issue.status.as_str(), SpanStyle::Plain));
    state.push(fixed_span("  ", SpanStyle::Plain));
    state.push(fixed_span("Priority: ", SpanStyle::Bold));
    state.push(make_span(&numeral, style_of_priority(issue.priority)));
    let state = line_of_spans(state);
    assert(state@ =~= head_lines(*issue)[3]);
    out.push(state);
    assert(lines_view(out@) =~= head_lines(*issue));
    out
}

fn state(issue: &Issue, ready_ids: &IdSet) -> (out: Vec<StyledLine>)
    ensures
        lines_view(out@) == state_lines(*issue, ready_ids@),
{
    let mut out: Vec<StyledLine> = Vec::new();
    if issue.is_closed() {
        assert(lines_view(out@) =~= Seq::<Seq<SpanView>>::empty());
        return out;
    }
    if ready_ids.contains(issue.id.as_str()) {
        out.push(line_of_one(fixed_span("READY", SpanStyle::Ready)));
        assert(lines_view(out@) =~= seq![seq![span("READY"@, SpanStyle::Ready)]]);
        return out;
    }
    let blockers = blocking_ids(issue);
    if blockers.len() == 0 {
        out.push(line_of_one(fixed_span("BLOCKED", SpanStyle::Blocked)));
        assert(lines_view(out@) =~= seq![seq![span("BLOCKED"@, SpanStyle::Blocked)]]);
    } else {
        let mut by = chars_of(" by ");
        append(&mut by, &join(&blockers, ", "));
        out.push(
            line_of_two(
                fixed_span("BLOCKED", SpanStyle::Blocked),
                make_span(&by, SpanStyle::BlockedBy),
            ),
        );
        assert(lines_view(out@) =~= state_lines(*issue, ready_ids@));
    }
    out
}

fn text_section(title: &str, text: &Option<String>) -> (out: Vec<StyledLine>)
    ensures
        lines_view(out@) == text_lines(title@, *text),
{
    let mut out: Vec<StyledLine> = Vec::new();
    match text {
        Some(t) => {
            if t.as_str().unicode_len() > 0 {
                push_line(&mut out, line_of_one(fixed_span(title, SpanStyle::Bold)));
                extend_lines(&mut out, markdown_to_lines(t.as_str()));
                push_line(&mut out, blank_line());
                assert(lines_view(out@) =~= text_lines(title@, *text));
                return out;
            }
        },
        None => {},
    }
    assert(lines_view(out@) =~= Seq::<Seq<SpanView>>::empty());
    out
}

fn label_section(given: &Option<Vec<String>>) -> (out: Vec<StyledLine>)
    ensures
        lines_view(out@) == label_lines(*given),
{
    let mut out: Vec<StyledLine> = Vec::new();
    match given {
        Some(l) => {
            if l.len() > 0 {
                let all = join(l, ", ");
                out.push(
                    line_of_two(
                        fixed_span("Labels: ", SpanStyle::Bold),
                        make_span(&all, SpanStyle::Plain),
                    ),
                );
                out.push(blank_line());
                assert(lines_view(out@) =~= label_lines(*given));
                return out;
            }
        },
        None => {},
    }
    assert(lines_view(out@) =~= Seq::<Seq<SpanView>>::empty());
    out
}

fn edge_text(d: &Dependency, full: bool) -> (r: Vec<char>)
    ensures
        r@ == if full {
            dependency_text(*d)
        } else {
            dependent_text(*d)
        },
{
    let mut r = chars_of("  ");
    append(&mut r, &chars_of(d.id.as_str()));
    if full {
        append(&mut r, &chars_of(" ("));
        match &d.dependency_type {
            Some(t) => {
                append(&mut r, &chars_of(t.as_str()));
            },
            None => {
                append(&mut r, &chars_of("unknown"));
            },
        }
        append(&mut r, &chars_of(") - "));
    } else {
        append(&mut r, &chars_of(" - "));
    }
    append(&mut r, &chars_of(d.title.as_str()));
    r
}

fn edges(title: &str, deps: &Option<Vec<Dependency>>, full: bool) -> (out: Vec<StyledLine>)
    ensures
        lines_view(out@) == edge_section(title@, *deps, full),
{
    let mut out: Vec<StyledLine> = Vec::new();
    match deps {
        Some(d) => {
            let n = d.len();
            if n > 0 {
                push_line(&mut out, line_of_one(fixed_span(title, SpanStyle::Bold)));
                let ghost top = seq![seq![span(title@, SpanStyle::Bold)]];
                let mut k: usize = 0;
                assert(lines_view(out@) =~= top + edge_lines(d@, full, 0));
                while k < n
                    invariant
                        k <= n,
                        n == d.len(),
                        top == seq![seq![span(title@, SpanStyle::Bold)]],
                        lines_view(out@) == top + edge_lines(d@, full, k as int),
                    decreases n - k,
                {
                    let shown = edge_text(&d[k], full);
                    push_line(&mut out, line_of_one(make_span(&shown, SpanStyle::Plain)));
                    assert(lines_view(out@) =~= top + edge_lines(d@, full, k + 1));
                    k += 1;
                }
                push_line(&mut out, blank_line());
                return out;
            }
        },
        None => {},
    }
    assert(lines_view(out@) =~= Seq::<Seq<SpanView>>::empty());
    out
}

fn stamps(issue: &Issue) -> (out: Vec<StyledLine>)
    ensures
        lines_view(out@) == stamp_lines(*issue),
{
    let mut out: Vec<StyledLine> = Vec::new();
    out.push(
        line_of_two(
            fixed_span("Created: ", SpanStyle::Muted),
            fixed_span(issue.created_at.as_str(), SpanStyle::Muted),
        ),
    );
    out.push(
        line_of_two(
            fixed_span("Updated: ", SpanStyle::Muted),
            fixed_span(issue.updated_at.as_str(), SpanStyle::Muted),
        ),
    );
    assert(lines_view(out@) =~= stamp_lines(*issue));
    out
}

/// What the detail panel shows of `issue`, `ready_ids` being the
/// identifiers of the issues that nothing blocks.
pub fn format_issue_detail(issue: &Issue, ready_ids: &IdSet) -> (out: Vec<StyledLine>)
    ensures
        lines_view(out@) == detail_lines(*issue, ready_ids@),
{
    let mut out = head(issue);
    extend_lines(&mut out, state(issue, ready_ids));
    push_line(&mut out, blank_line());
    extend_lines(&mut out, text_section("Description:", &issue.description));
    extend_lines(&mut out, label_section(&issue.labels));
    extend_lines(&mut out, text_section("Notes:", &issue.notes));
    extend_lines(&mut out, edges("Dependencies:", &issue.dependencies, true));
    extend_lines(&mut out, edges("Children:", &issue.dependents, false));
    extend_lines(&mut out, stamps(issue));
    out
}

/// The pieces into which the line feeds part `s` from position `from` on.
/// A text without a line feed is one piece; a line feed at the end is
/// followed by an empty piece.
pub open spec fn pieces_from(s: Seq<char>, from: int) -> Seq<Seq<char>>
    decreases s.len() - from,
{
    let end = scan_to(s, from, '\n');
    if from < 0 || end >= s.len() || end < from {
        seq![s.subrange(from, s.len() as int)]
    } else {
        seq![s.subrange(from, end)] + pieces_from(s, end + 1)
    }
}

/// The pieces into which the line feeds part the characters `s`.
pub fn pieces(s: &Vec<char>) -> (r: Vec<Vec<char>>)
    ensures
        r@.map_values(|l: Vec<char>| l@) == pieces_from(s@, 0),
{
    let n = s.len();
    let mut r: Vec<Vec<char>> = Vec::new();
    let mut from: usize = 0;
    let ghost whole = pieces_from(s@, 0);
    assert(r@.map_values(|l: Vec<char>| l@) + whole =~= whole);
    loop
        invariant
            from <= n,
            n == s.len(),
            whole == pieces_from(s@, 0),
            whole == r@.map_values(|l: Vec<char>| l@) + pieces_from(s@, from as int),
        decreases n - from,
    {
        let ghost done = r@.map_values(|l: Vec<char>| l@);
        let end = scan(s, from, '\n');
        if end >= n {
            let last = slice(s, from, n);
            r.push(last);
            assert(r@.map_values(|l: Vec<char>| l@) =~= done + seq![s@.subrange(
                from as int,
                n as int,
            )]);
            return r;
        }
        let piece = slice(s, from, end);
        r.push(piece);
        proof {
            let one = seq![s@.subrange(from as int, end as int)];
            assert(r@.map_values(|l: Vec<char>| l@) =~= done + one);
            assert(done + (one + pieces_from(s@, end + 1)) =~= done + one + pieces_from(
                s@,
                end + 1,
            ));
        }
        from = end + 1;
    }
}

/// The name of a field.
pub open spec fn field_name(field: EditField) -> Seq<char> {
    match field {
        EditField::Title => "Title"@,
        EditField::Description => "Description"@,
    }
}

/// A line of the text that is edited: as it is, but for the line of the
/// cursor, in which the character under the cursor is marked out; behind
/// the end of the line that is a space.
pub open spec fn edit_line(line: Seq<char>, col: Option<nat>) -> Seq<SpanView> {
    match col {
        Some(c) => if c < line.len() {
            seq![
                span(line.subrange(0, c as int), SpanStyle::Plain),
                span(seq![line[c as int]], SpanStyle::Cursor),
                span(line.subrange(c as int + 1, line.len() as int), SpanStyle::Plain),
            ]
        } else {
            seq![
                span(line, SpanStyle::Plain),
                span(" "@, SpanStyle::Cursor),
                span(Seq::empty(), SpanStyle::Plain),
            ]
        },
        None => seq![span(line, SpanStyle::Plain)],
    }
}

/// The first `upto` lines of the text that is edited, the cursor standing
/// in line `line` at column `col`.
pub open spec fn edit_text_lines(rows: Seq<Seq<char>>, line: nat, col: nat, upto: int) -> Seq<
    Seq<SpanView>,
>
    decreases upto,
{
    if upto <= 0 {
        Seq::empty()
    } else {
        edit_text_lines(rows, line, col, upto - 1).push(
            edit_line(
                rows[upto - 1],
                if upto - 1 == line {
                    Some(col)
                } else {
                    None
                },
            ),
        )
    }
}

/// The lines above the text that is edited: the identifier of the issue
/// where there is one, and the name of the field.
pub open spec fn edit_head(id: Option<Seq<char>>, field: EditField) -> Seq<Seq<SpanView>> {
    (match id {
        Some(text) => seq![
            seq![span("ID: "@, SpanStyle::Bold), span(text, SpanStyle::Plain)],
            blank(),
        ],
        None => Seq::empty(),
    }) + seq![seq![span(field_name(field) + ":"@, SpanStyle::FieldName)]]
}

/// The lines below the text that is edited: a hint, which says whether the
/// text was changed.
pub open spec fn edit_foot(modified: bool) -> Seq<Seq<SpanView>> {
    seq![
        blank(),
        if modified {
            seq![span("[Modified] Press Ctrl+S to save, Esc to cancel"@, SpanStyle::Changed)]
        } else {
            seq![span("Press Ctrl+S to save, Esc to cancel"@, SpanStyle::Muted)]
        },
    ]
}

/// What the panel shows while a field is edited.
pub open spec fn edit_panel(id: Option<Seq<char>>, field: EditField, v: EditView) -> Seq<
    Seq<SpanView>,
> {
    let rows = pieces_from(v.buffer, 0);
    edit_head(id, field) + edit_text_lines(rows, v.line(), v.col(), rows.len() as int)
        + edit_foot(v.modified())
}

fn edit_row(line: &Vec<char>, here: bool, col: usize) -> (r: StyledLine)
    ensures
        r@ == edit_line(
            line@,
            if here {
                Some(col as nat)
            } else {
                None
            },
        ),
{
    if !here {
        return line_of_one(make_span(line, SpanStyle::Plain));
    }
    if col < line.len() {
        let mut under: Vec<char> = Vec::new();
        under.push(line[col]);
        assert(under@ =~= seq![line[col as int]]);
        line_of_three(
            make_span(&slice(line, 0, col), SpanStyle::Plain),
            make_span(&under, SpanStyle::Cursor),
            make_span(&slice(line, col + 1, line.len()), SpanStyle::Plain),
        )
    } else {
        let nothing: Vec<char> = Vec::new();
        line_of_three(
            make_span(line, SpanStyle::Plain),
            fixed_span(" ", SpanStyle::Cursor),
            make_span(&nothing, SpanStyle::Plain),
        )
    }
}

/// What the panel shows while `edit` is edited; `issue` is the issue shown
/// in the panel, if there is one.
pub fn edit_panel_lines(issue: Option<&Issue>, edit: &EditState) -> (out: Vec<StyledLine>)
    requires
        edit.wf(),
    ensures
        lines_view(out@) == edit_panel(
            match issue {
                Some(i) => Some(i.id@),
                None => None,
            },
            edit.what(),
            edit@,
        ),
{
    let mut out: Vec<StyledLine> = Vec::new();
    match issue {
        Some(i) => {
            out.push(
                line_of_two(
                    fixed_span("ID: ", SpanStyle::Bold),
                    fixed_span(i.id.as_str(), SpanStyle::Plain),
                ),
            );
            out.push(blank_line());
        },
        None => {},
    }
    let mut label = match edit.field() {
        EditField::Title => chars_of("Title"),
        EditField::Description => chars_of("Description"),
    };
    append(&mut label, &chars_of(":"));
    out.push(line_of_one(make_span(&label, SpanStyle::FieldName)));
    let ghost id = match issue {
        Some(i) => Some(i.id@),
        None => None,
    };
    let ghost top = edit_head(id, edit.what());
    assert(lines_view(out@) =~= top);
    let rows = pieces(edit.chars());
    let ghost all = rows@.map_values(|l: Vec<char>| l@);
    let line = edit.cursor_line();
    let col = edit.cursor_col();
    let n = rows.len();
    let mut k: usize = 0;
    assert(lines_view(out@) =~= top + edit_text_lines(all, line as nat, col as nat, 0));
    while k < n
        invariant
            k <= n,
            n == rows.len(),
            all == rows@.map_values(|l: Vec<char>| l@),
            lines_view(out@) == top + edit_text_lines(all, line as nat, col as nat, k as int),
        decreases n - k,
    {
        let ghost before = lines_view(out@);
        let shown = edit_row(&rows[k], k == line, col);
        assert(all[k as int] == rows[k as int]@);
        push_line(&mut out, shown);
        assert(lines_view(out@) =~= top + edit_text_lines(all, line as nat, col as nat, k + 1));
        k += 1;
    }
    push_line(&mut out, blank_line());
    let hint = if edit.is_modified() {
        fixed_span("[Modified] Press Ctrl+S to save, Esc to cancel", SpanStyle::Changed)
    } else {
        fixed_span("Press Ctrl+S to save, Esc to cancel", SpanStyle::Muted)
    };
    push_line(&mut out, line_of_one(hint));
    assert(lines_view(out@) =~= edit_panel(id, edit.what(), edit@));
    out
}

} // verus!
