//! The line-aligned diff document: lines of a text, rows pairing old and new
//! lines along the diff's operations, and where the hunks start.
use vstd::prelude::*;
use crate::highlight::{
    copy_spans, highlighting, span_lists, lines_with_endings, span_views, strip_nl, trail_nl, Engine, Span,
};
use crate::text::{
    join, lemma_join_split, lemma_split_len, lemma_split_pieces, split, split_char, string_from,
    to_chars,
};
use crate::theme::{Color, Theme, TokenColors};

verus! {

// ---------------------------------------------------------------------------
// Lines
// ---------------------------------------------------------------------------

/// The lines of a text: the pieces between newlines, without the empty
/// piece after a final newline; none for the empty text.
pub open spec fn lines_of(s: Seq<char>) -> Seq<Seq<char>> {
    if s.len() == 0 {
        Seq::empty()
    } else if s.last() == '\n' {
        split(s, '\n').drop_last()
    } else {
        split(s, '\n')
    }
}

/// Joining the lines of a text with newlines, and putting back the final
/// newline where the text ended with one, gives the text back; no line
/// holds a newline.
pub proof fn law_lines_rejoin(s: Seq<char>)
    ensures
        join(lines_of(s), '\n') + (if s.len() > 0 && s.last() == '\n' {
            seq!['\n']
        } else {
            Seq::empty()
        }) == s,
        forall|i: int| 0 <= i < lines_of(s).len() ==> !(#[trigger] lines_of(s)[i]).contains('\n'),
{
    lemma_split_pieces(s, '\n');
    if s.len() == 0 {
        assert(join(lines_of(s), '\n') =~= s);
    } else if s.last() == '\n' {
        let prev = split(s.drop_last(), '\n');
        lemma_join_split(s.drop_last(), '\n');
        assert(split(s, '\n').drop_last() =~= prev);
        assert(s.drop_last() + seq!['\n'] =~= s);
        assert forall|i: int| 0 <= i < lines_of(s).len() implies !(#[trigger] lines_of(s)[i]).contains('\n') by {
            assert(lines_of(s)[i] == split(s, '\n')[i]);
        }
    } else {
        lemma_join_split(s, '\n');
        assert(join(lines_of(s), '\n') + Seq::<char>::empty() =~= s);
    }
}

/// The highlighter's lines are the diff's lines: as many, each the same
/// line with its line end (for a line that does not itself end in `\r`,
/// which the highlighter takes as part of the line end).
pub proof fn law_highlighted_lines_are_lines(s: Seq<char>)
    ensures
        lines_with_endings(s).len() == lines_of(s).len(),
        forall|i: int|
            0 <= i < lines_of(s).len() && (lines_of(s)[i].len() == 0 || lines_of(s)[i].last() != '\r')
                ==> strip_nl(#[trigger] lines_with_endings(s)[i]) == lines_of(s)[i],
{
    let ps = split(s, '\n');
    lemma_split_len(s, '\n');
    lemma_split_pieces(s, '\n');
    if s.len() > 0 && s.last() != '\n' {
        lemma_split_last(s);
    }
    if s.len() > 0 && s.last() == '\n' {
        assert(ps == split(s.drop_last(), '\n').push(Seq::empty()));
    }
    if s.len() == 0 {
        assert(ps =~= seq![Seq::<char>::empty()]);
    }
    let lw = lines_with_endings(s);
    let lo = lines_of(s);
    assert forall|i: int|
        0 <= i < lo.len() && (lo[i].len() == 0 || lo[i].last() != '\r')
            implies strip_nl(#[trigger] lw[i]) == lo[i] by {
        assert(lo[i] == ps[i]);
        assert(!ps[i].contains('\n'));
        if i < ps.len() - 1 {
            let l = ps[i].push('\n');
            assert(lw[i] == l);
            assert(l.drop_last() =~= ps[i]);
            if ps[i].len() > 0 {
                assert(ps[i].last() != '\n') by {
                    assert(ps[i][ps[i].len() - 1] == ps[i].last());
                }
            }
            assert(trail_nl(ps[i]) == 0);
            assert(trail_nl(l) == 1);
            assert(strip_nl(l) =~= ps[i]);
        } else {
            assert(lw[i] == ps[i]);
            assert(ps[i].len() > 0);
            assert(ps[i].last() != '\n') by {
                assert(ps[i][ps[i].len() - 1] == ps[i].last());
            }
            assert(trail_nl(ps[i]) == 0);
            assert(strip_nl(ps[i]) =~= ps[i]);
        }
    }
}

/// A text that does not end in a newline ends in a non-empty piece.
proof fn lemma_split_last(s: Seq<char>)
    requires
        s.len() > 0,
        s.last() != '\n',
    ensures
        split(s, '\n').last().len() > 0,
{
    lemma_split_len(s.drop_last(), '\n');
    let prev = split(s.drop_last(), '\n');
    assert(split(s, '\n') == prev.update(prev.len() - 1, prev.last().push(s.last())));
}

pub open spec fn string_views(v: Seq<String>) -> Seq<Seq<char>> {
    v.map_values(|s: String| s@)
}

/// The lines of a text (see `lines_of`).
pub fn split_lines(s: &str) -> (r: Vec<String>)
    ensures
        string_views(r@) == lines_of(s@),
{
    let v = to_chars(s);
    if v.len() == 0 {
        proof {
            assert(string_views(Seq::<String>::empty()) =~= Seq::<Seq<char>>::empty());
        }
        return Vec::new();
    }
    let pieces = split_char(&v, '\n');
    let ghost ps = split(s@, '\n');
    let n = if v[v.len() - 1] == '\n' {
        pieces.len() - 1
    } else {
        pieces.len()
    };
    let ghost target = lines_of(s@);
    proof {
        crate::text::lemma_split_len(s@, '\n');
        assert(v@.last() == v@[v@.len() - 1]);
    }
    let mut out: Vec<String> = Vec::new();
    for i in 0..n
        invariant
            n <= pieces.len(),
            pieces.len() == ps.len(),
            forall|j: int| 0 <= j < pieces.len() ==> #[trigger] pieces[j]@ == ps[j],
            target.len() == n,
            forall|j: int| 0 <= j < n ==> #[trigger] target[j] == ps[j],
            string_views(out@) == target.take(i as int),
    {
        let ghost prev = out@;
        out.push(string_from(&pieces[i]));
        proof {
            assert(string_views(out@) =~= string_views(prev).push(ps[i as int]));
            assert(target.take(i + 1) =~= target.take(i as int).push(target[i as int]));
        }
    }
    proof {
        assert(target.take(n as int) == target);
    }
    out
}

// ---------------------------------------------------------------------------
// Rows
// ---------------------------------------------------------------------------

#[derive(Debug, Clone, Copy, PartialEq, Eq, Structural)]
pub enum LineKind {
    Context,
    Delete,
    Insert,
}

/// One side of a row: a line number (from 1), the line's spans, its kind.
#[derive(Debug, Clone)]
pub struct LineCell {
    pub no: usize,
    pub spans: Vec<Span>,
    pub kind: LineKind,
}

pub type SpanView = (Seq<char>, Color, bool, bool);

pub type CellView = (nat, Seq<SpanView>, LineKind);

impl View for LineCell {
    type V = CellView;

    open spec fn view(&self) -> CellView {
        (self.no as nat, span_views(self.spans@), self.kind)
    }
}

#[derive(Debug, Clone)]
pub enum DiffRow {
    Both { left: LineCell, right: LineCell },
    LeftOnly { left: LineCell },
    RightOnly { right: LineCell },
}

/// A row as its left and right cells.
pub type RowView = (Option<CellView>, Option<CellView>);

impl View for DiffRow {
    type V = RowView;

    open spec fn view(&self) -> RowView {
        match self {
            DiffRow::Both { left, right } => (Some(left@), Some(right@)),
            DiffRow::LeftOnly { left } => (Some(left@), None),
            DiffRow::RightOnly { right } => (None, Some(right@)),
        }
    }
}

pub open spec fn row_views(rows: Seq<DiffRow>) -> Seq<RowView> {
    rows.map_values(|r: DiffRow| r@)
}

/// The tag of a diff operation.
#[derive(Debug, Clone, Copy, PartialEq, Eq, Structural)]
pub enum OpTag {
    Equal,
    Delete,
    Insert,
    Replace,
}

/// A diff operation on lines: old lines `old_start..old_end` against new
/// lines `new_start..new_end`.
#[derive(Debug, Clone, Copy, PartialEq, Eq, Structural)]
pub struct LineOp {
    pub tag: OpTag,
    pub old_start: usize,
    pub old_end: usize,
    pub new_start: usize,
    pub new_end: usize,
}

pub open spec fn range_len(start: usize, end: usize) -> nat {
    if start <= end {
        (end - start) as nat
    } else {
        0
    }
}

/// The number of rows an operation makes.
pub open spec fn op_row_count(op: LineOp) -> nat {
    let ol = range_len(op.old_start, op.old_end);
    let nl = range_len(op.new_start, op.new_end);
    match op.tag {
        OpTag::Equal => if ol <= nl {
            ol
        } else {
            nl
        },
        OpTag::Delete => ol,
        OpTag::Insert => nl,
        OpTag::Replace => if ol >= nl {
            ol
        } else {
            nl
        },
    }
}

/// The cell of line `idx` (from 0): numbered `idx + 1`, with the line's
/// spans where there are any.
pub open spec fn cell_of(idx: int, spans: Seq<Seq<SpanView>>, kind: LineKind) -> CellView {
    ((idx + 1) as nat, if 0 <= idx < spans.len() {
        spans[idx]
    } else {
        Seq::empty()
    }, kind)
}

/// Row `i` of an operation: equal lines side by side as context; deleted
/// lines on the left; inserted lines on the right; a replacement pairs its
/// old and new lines in order, the longer side going on alone.
pub open spec fn op_row(
    op: LineOp,
    i: int,
    os: Seq<Seq<SpanView>>,
    ns: Seq<Seq<SpanView>>,
) -> RowView {
    let oi = op.old_start + i;
    let ni = op.new_start + i;
    match op.tag {
        OpTag::Equal => (
            Some(cell_of(oi, os, LineKind::Context)),
            Some(cell_of(ni, ns, LineKind::Context)),
        ),
        OpTag::Delete => (Some(cell_of(oi, os, LineKind::Delete)), None),
        OpTag::Insert => (None, Some(cell_of(ni, ns, LineKind::Insert))),
        OpTag::Replace => (
            if i < range_len(op.old_start, op.old_end) {
                Some(cell_of(oi, os, LineKind::Delete))
            } else {
                None
            },
            if i < range_len(op.new_start, op.new_end) {
                Some(cell_of(ni, ns, LineKind::Insert))
            } else {
                None
            },
        ),
    }
}

pub open spec fn op_rows(op: LineOp, os: Seq<Seq<SpanView>>, ns: Seq<Seq<SpanView>>) -> Seq<
    RowView,
> {
    Seq::new(op_row_count(op), |i: int| op_row(op, i, os, ns))
}

/// The rows of all operations, in order.
pub open spec fn rows_of(ops: Seq<LineOp>, os: Seq<Seq<SpanView>>, ns: Seq<Seq<SpanView>>) -> Seq<
    RowView,
>
    decreases ops.len(),
{
    if ops.len() == 0 {
        Seq::empty()
    } else {
        rows_of(ops.drop_last(), os, ns) + op_rows(ops.last(), os, ns)
    }
}

pub open spec fn lines_spans(v: Seq<Vec<Span>>) -> Seq<Seq<SpanView>> {
    v.map_values(|l: Vec<Span>| span_views(l@))
}

fn cell(idx: usize, spans: &Vec<Vec<Span>>, kind: LineKind) -> (c: LineCell)
    requires
        idx < usize::MAX,
    ensures
        c@ == cell_of(idx as int, lines_spans(spans@), kind),
{
    let s = if idx < spans.len() {
        copy_spans(&spans[idx])
    } else {
        Vec::new()
    };
    proof {
        if idx >= spans.len() {
            assert(span_views(s@) =~= Seq::<SpanView>::empty());
        }
    }
    LineCell { no: idx + 1, spans: s, kind }
}

fn row_at(op: &LineOp, i: usize, spans_old: &Vec<Vec<Span>>, spans_new: &Vec<Vec<Span>>) -> (r:
    DiffRow)
    requires
        i < op_row_count(*op),
    ensures
        r@ == op_row(*op, i as int, lines_spans(spans_old@), lines_spans(spans_new@)),
{
    let ol = if op.old_start <= op.old_end {
        op.old_end - op.old_start
    } else {
        0
    };
    let nl = if op.new_start <= op.new_end {
        op.new_end - op.new_start
    } else {
        0
    };
    match op.tag {
        OpTag::Equal => DiffRow::Both {
            left: cell(op.old_start + i, spans_old, LineKind::Context),
            right: cell(op.new_start + i, spans_new, LineKind::Context),
        },
        OpTag::Delete => DiffRow::LeftOnly {
            left: cell(op.old_start + i, spans_old, LineKind::Delete),
        },
        OpTag::Insert => DiffRow::RightOnly {
            right: cell(op.new_start + i, spans_new, LineKind::Insert),
        },
        OpTag::Replace => {
            if i < ol && i < nl {
                DiffRow::Both {
                    left: cell(op.old_start + i, spans_old, LineKind::Delete),
                    right: cell(op.new_start + i, spans_new, LineKind::Insert),
                }
            } else if i < ol {
                DiffRow::LeftOnly { left: cell(op.old_start + i, spans_old, LineKind::Delete) }
            } else {
                DiffRow::RightOnly { right: cell(op.new_start + i, spans_new, LineKind::Insert) }
            }
        },
    }
}

/// The rows of a list of diff operations (see `rows_of`), each cell holding
/// a copy of its line's spans.
pub fn rows_from_ops(ops: &Vec<LineOp>, spans_old: &Vec<Vec<Span>>, spans_new: &Vec<Vec<Span>>) -> (r:
    Vec<DiffRow>)
    ensures
        row_views(r@) == rows_of(ops@, lines_spans(spans_old@), lines_spans(spans_new@)),
{
    let ghost os = lines_spans(spans_old@);
    let ghost ns = lines_spans(spans_new@);
    let mut rows: Vec<DiffRow> = Vec::new();
    for k in 0..ops.len()
        invariant
            os == lines_spans(spans_old@),
            ns == lines_spans(spans_new@),
            row_views(rows@) == rows_of(ops@.take(k as int), os, ns),
    {
        let op = &ops[k];
        let ghost base = rows@;
        proof {
            assert(ops@.take(k + 1).drop_last() == ops@.take(k as int));
            assert(ops@.take(k + 1).last() == *op);
        }
        let ol = if op.old_start <= op.old_end {
            op.old_end - op.old_start
        } else {
            0
        };
        let nl = if op.new_start <= op.new_end {
            op.new_end - op.new_start
        } else {
            0
        };
        let count = match op.tag {
            OpTag::Equal => if ol <= nl {
                ol
            } else {
                nl
            },
            OpTag::Delete => ol,
            OpTag::Insert => nl,
            OpTag::Replace => if ol >= nl {
                ol
            } else {
                nl
            },
        };
        assert(count == op_row_count(*op));
        for i in 0..count
            invariant
                count == op_row_count(*op),
                os == lines_spans(spans_old@),
                ns == lines_spans(spans_new@),
                row_views(rows@) == row_views(base) + op_rows(*op, os, ns).take(i as int),
        {
            let ghost prev = rows@;
            rows.push(row_at(op, i, spans_old, spans_new));
            proof {
                assert(row_views(rows@) =~= row_views(prev).push(op_row(*op, i as int, os, ns)));
                assert(op_rows(*op, os, ns).take(i + 1) =~= op_rows(*op, os, ns).take(i as int).push(
                    op_row(*op, i as int, os, ns),
                ));
            }
        }
        proof {
            assert(op_rows(*op, os, ns).take(count as int) =~= op_rows(*op, os, ns));
        }
    }
    proof {
        assert(ops@.take(ops@.len() as int) == ops@);
    }
    rows
}

// ---------------------------------------------------------------------------
// Every line once, in order
// ---------------------------------------------------------------------------

/// The left (`left`) or right cell of a row.
pub open spec fn side(r: RowView, left: bool) -> Option<CellView> {
    if left {
        r.0
    } else {
        r.1
    }
}

/// The line numbers shown on one side of `rows`, top to bottom.
pub open spec fn side_numbers(rows: Seq<RowView>, left: bool) -> Seq<nat>
    decreases rows.len(),
{
    if rows.len() == 0 {
        Seq::empty()
    } else {
        let prev = side_numbers(rows.drop_last(), left);
        match side(rows.last(), left) {
            Some(c) => prev.push(c.0),
            None => prev,
        }
    }
}

/// An operation that fits its tag: ranges in order, equal runs of the same
/// length, a deletion with no new lines, an insertion with no old ones.
pub open spec fn op_ok(op: LineOp) -> bool {
    &&& op.old_start <= op.old_end
    &&& op.new_start <= op.new_end
    &&& match op.tag {
        OpTag::Equal => op.old_end - op.old_start == op.new_end - op.new_start,
        OpTag::Delete => op.new_start == op.new_end,
        OpTag::Insert => op.old_start == op.old_end,
        OpTag::Replace => true,
    }
}

/// Operations that walk `n_old` old lines and `n_new` new lines from the
/// first to the last: each starts where the one before it ended.
pub open spec fn walks(ops: Seq<LineOp>, n_old: nat, n_new: nat) -> bool
    decreases ops.len(),
{
    if ops.len() == 0 {
        n_old == 0 && n_new == 0
    } else {
        let op = ops.last();
        &&& op_ok(op)
        &&& op.old_end == n_old
        &&& op.new_end == n_new
        &&& walks(ops.drop_last(), op.old_start as nat, op.new_start as nat)
    }
}

/// The numbers `from + 1 ..= from + n`.
pub open spec fn numbers(from: nat, n: nat) -> Seq<nat> {
    Seq::new(n, |i: int| (from + i + 1) as nat)
}

proof fn lemma_side_numbers_append(a: Seq<RowView>, b: Seq<RowView>, left: bool)
    ensures
        side_numbers(a + b, left) == side_numbers(a, left) + side_numbers(b, left),
    decreases b.len(),
{
    if b.len() == 0 {
        assert(a + b =~= a);
        assert(side_numbers(a, left) + side_numbers(b, left) =~= side_numbers(a, left));
    } else {
        lemma_side_numbers_append(a, b.drop_last(), left);
        assert((a + b).drop_last() =~= a + b.drop_last());
        assert((a + b).last() == b.last());
        match side(b.last(), left) {
            Some(c) => {
                assert(side_numbers(a, left) + side_numbers(b.drop_last(), left).push(c.0)
                    =~= (side_numbers(a, left) + side_numbers(b.drop_last(), left)).push(c.0));
            },
            None => {},
        }
    }
}

/// Rows whose first `m` carry lines `from + 1 ..= from + m` on one side and
/// whose others carry nothing there show exactly those numbers.
proof fn lemma_side_prefix(rows: Seq<RowView>, left: bool, m: nat, from: nat)
    requires
        m <= rows.len(),
        forall|i: int| 0 <= i < m ==> (#[trigger] side(rows[i], left) matches Some(c) && c.0 == from + i + 1),
        forall|i: int| m <= i < rows.len() ==> #[trigger] side(rows[i], left) is None,
    ensures
        side_numbers(rows, left) == numbers(from, m),
    decreases rows.len(),
{
    if rows.len() == 0 {
        assert(numbers(from, m) =~= Seq::<nat>::empty());
    } else {
        let r = rows.drop_last();
        let k = rows.len() - 1;
        assert(rows.last() == rows[k]);
        if m == rows.len() {
            assert forall|i: int| 0 <= i < m - 1 implies (#[trigger] side(r[i], left) matches Some(c) && c.0
                == from + i + 1) by {
                assert(r[i] == rows[i]);
                assert(side(rows[i], left) matches Some(c) && c.0 == from + i + 1);
            }
            lemma_side_prefix(r, left, (m - 1) as nat, from);
            assert(side(rows[k], left) matches Some(c) && c.0 == from + k + 1);
            assert(numbers(from, (m - 1) as nat).push((from + k + 1) as nat) =~= numbers(from, m));
        } else {
            assert forall|i: int| 0 <= i < m implies (#[trigger] side(r[i], left) matches Some(c) && c.0
                == from + i + 1) by {
                assert(r[i] == rows[i]);
                assert(side(rows[i], left) matches Some(c) && c.0 == from + i + 1);
            }
            assert forall|i: int| m <= i < r.len() implies #[trigger] side(r[i], left) is None by {
                assert(r[i] == rows[i]);
                assert(side(rows[i], left) is None);
            }
            lemma_side_prefix(r, left, m, from);
            assert(side(rows[k], left) is None);
        }
    }
}

proof fn lemma_op_rows_sides(op: LineOp, os: Seq<Seq<SpanView>>, ns: Seq<Seq<SpanView>>)
    requires
        op_ok(op),
    ensures
        side_numbers(op_rows(op, os, ns), true) == numbers(op.old_start as nat, (op.old_end - op.old_start) as nat),
        side_numbers(op_rows(op, os, ns), false) == numbers(op.new_start as nat, (op.new_end - op.new_start) as nat),
{
    let rows = op_rows(op, os, ns);
    let ol = (op.old_end - op.old_start) as nat;
    let nl = (op.new_end - op.new_start) as nat;
    assert(range_len(op.old_start, op.old_end) == ol);
    assert(range_len(op.new_start, op.new_end) == nl);
    assert(ol <= rows.len() && nl <= rows.len());
    assert forall|i: int| 0 <= i < ol implies (#[trigger] side(rows[i], true) matches Some(c) && c.0
        == op.old_start + i + 1) by {
        assert(rows[i] == op_row(op, i, os, ns));
    }
    assert forall|i: int| ol <= i < rows.len() implies #[trigger] side(rows[i], true) is None by {
        assert(rows[i] == op_row(op, i, os, ns));
    }
    assert forall|i: int| 0 <= i < nl implies (#[trigger] side(rows[i], false) matches Some(c) && c.0
        == op.new_start + i + 1) by {
        assert(rows[i] == op_row(op, i, os, ns));
    }
    assert forall|i: int| nl <= i < rows.len() implies #[trigger] side(rows[i], false) is None by {
        assert(rows[i] == op_row(op, i, os, ns));
    }
    lemma_side_prefix(rows, true, ol, op.old_start as nat);
    lemma_side_prefix(rows, false, nl, op.new_start as nat);
}

/// Laid out along operations that walk both texts, the rows show every old
/// line on the left and every new line on the right, each once, in order,
/// numbered from 1.
pub proof fn law_rows_show_every_line(
    ops: Seq<LineOp>,
    os: Seq<Seq<SpanView>>,
    ns: Seq<Seq<SpanView>>,
    n_old: nat,
    n_new: nat,
)
    requires
        walks(ops, n_old, n_new),
    ensures
        side_numbers(rows_of(ops, os, ns), true) == numbers(0, n_old),
        side_numbers(rows_of(ops, os, ns), false) == numbers(0, n_new),
    decreases ops.len(),
{
    if ops.len() == 0 {
        assert(numbers(0, n_old) =~= Seq::<nat>::empty());
        assert(numbers(0, n_new) =~= Seq::<nat>::empty());
    } else {
        let op = ops.last();
        law_rows_show_every_line(ops.drop_last(), os, ns, op.old_start as nat, op.new_start as nat);
        lemma_op_rows_sides(op, os, ns);
        lemma_side_numbers_append(rows_of(ops.drop_last(), os, ns), op_rows(op, os, ns), true);
        lemma_side_numbers_append(rows_of(ops.drop_last(), os, ns), op_rows(op, os, ns), false);
        assert(numbers(0, op.old_start as nat) + numbers(op.old_start as nat, (op.old_end - op.old_start) as nat)
            =~= numbers(0, n_old));
        assert(numbers(0, op.new_start as nat) + numbers(op.new_start as nat, (op.new_end - op.new_start) as nat)
            =~= numbers(0, n_new));
    }
}

/// Operations whose equal runs pair equal lines of the two texts.
pub open spec fn equal_runs_match(ops: Seq<LineOp>, old: Seq<Seq<char>>, new: Seq<Seq<char>>) -> bool {
    forall|k: int, i: int|
        0 <= k < ops.len() && (#[trigger] ops[k]).tag == OpTag::Equal && 0 <= i < ops[k].old_end
            - ops[k].old_start ==> #[trigger] old[ops[k].old_start + i] == new[ops[k].new_start + i]
}

/// A row that shows a line as context shows one line of each text (its
/// numbers counting from 1), the same line on both sides.
pub open spec fn shows_same_line(r: RowView, old: Seq<Seq<char>>, new: Seq<Seq<char>>) -> bool {
    match r.0 {
        Some(a) => a.2 == LineKind::Context ==> match r.1 {
            Some(b) => 1 <= a.0 <= old.len() && 1 <= b.0 <= new.len() && old[a.0 - 1] == new[b.0 - 1],
            None => false,
        },
        None => true,
    }
}

/// Laid out along operations that walk both texts and whose equal runs pair
/// equal lines, every context row shows the same line on both sides.
pub proof fn law_context_rows_match(
    ops: Seq<LineOp>,
    os: Seq<Seq<SpanView>>,
    ns: Seq<Seq<SpanView>>,
    old: Seq<Seq<char>>,
    new: Seq<Seq<char>>,
)
    requires
        walks(ops, old.len(), new.len()),
        equal_runs_match(ops, old, new),
    ensures
        forall|j: int|
            0 <= j < rows_of(ops, os, ns).len() ==> shows_same_line(
                #[trigger] rows_of(ops, os, ns)[j],
                old,
                new,
            ),
{
    lemma_context_rows_match(ops, os, ns, old, new, old.len(), new.len());
}

proof fn lemma_context_rows_match(
    ops: Seq<LineOp>,
    os: Seq<Seq<SpanView>>,
    ns: Seq<Seq<SpanView>>,
    old: Seq<Seq<char>>,
    new: Seq<Seq<char>>,
    n_old: nat,
    n_new: nat,
)
    requires
        walks(ops, n_old, n_new),
        n_old <= old.len(),
        n_new <= new.len(),
        equal_runs_match(ops, old, new),
    ensures
        forall|j: int|
            0 <= j < rows_of(ops, os, ns).len() ==> shows_same_line(
                #[trigger] rows_of(ops, os, ns)[j],
                old,
                new,
            ),
    decreases ops.len(),
{
    if ops.len() > 0 {
        let op = ops.last();
        let front = ops.drop_last();
        assert forall|k: int, i: int|
            0 <= k < front.len() && (#[trigger] front[k]).tag == OpTag::Equal && 0 <= i < front[k].old_end
                - front[k].old_start implies #[trigger] old[front[k].old_start + i] == new[front[k].new_start
                + i] by {
            assert(front[k] == ops[k]);
        }
        lemma_context_rows_match(front, os, ns, old, new, op.old_start as nat, op.new_start as nat);
        let a = rows_of(front, os, ns);
        let b = op_rows(op, os, ns);
        assert(rows_of(ops, os, ns) == a + b);
        assert(range_len(op.old_start, op.old_end) == op.old_end - op.old_start);
        assert(range_len(op.new_start, op.new_end) == op.new_end - op.new_start);
        assert forall|j: int| 0 <= j < rows_of(ops, os, ns).len() implies shows_same_line(
            #[trigger] rows_of(ops, os, ns)[j],
            old,
            new,
        ) by {
            if j < a.len() {
                assert(rows_of(ops, os, ns)[j] == a[j]);
            } else {
                let i = j - a.len();
                assert(rows_of(ops, os, ns)[j] == b[i]);
                assert(b[i] == op_row(op, i, os, ns));
                if op.tag == OpTag::Equal {
                    assert(ops[ops.len() - 1] == op);
                    assert(old[op.old_start + i] == new[op.new_start + i]);
                }
            }
        }
    }
}

/// A cell that is either absent or shows line `no` (counting from 1, at
/// most `n`) with the spans given for that line.
pub open spec fn cell_shows_its_line(c: Option<CellView>, spans: Seq<Seq<SpanView>>, n: nat) -> bool {
    match c {
        Some(c) => 1 <= c.0 <= n && c.1 == spans[c.0 - 1],
        None => true,
    }
}

/// Laid out along operations that walk `n_old` old and `n_new` new lines,
/// every left cell carries the spans of the old line it is numbered with,
/// and every right cell those of the new line it is numbered with.
pub proof fn law_cells_carry_their_lines(
    ops: Seq<LineOp>,
    os: Seq<Seq<SpanView>>,
    ns: Seq<Seq<SpanView>>,
    n_old: nat,
    n_new: nat,
)
    requires
        walks(ops, n_old, n_new),
        n_old <= os.len(),
        n_new <= ns.len(),
    ensures
        forall|j: int|
            0 <= j < rows_of(ops, os, ns).len() ==> cell_shows_its_line(
                (#[trigger] rows_of(ops, os, ns)[j]).0,
                os,
                n_old,
            ) && cell_shows_its_line(rows_of(ops, os, ns)[j].1, ns, n_new),
    decreases ops.len(),
{
    if ops.len() > 0 {
        let op = ops.last();
        let front = ops.drop_last();
        law_cells_carry_their_lines(front, os, ns, op.old_start as nat, op.new_start as nat);
        let a = rows_of(front, os, ns);
        let b = op_rows(op, os, ns);
        assert(rows_of(ops, os, ns) == a + b);
        assert(range_len(op.old_start, op.old_end) == op.old_end - op.old_start);
        assert(range_len(op.new_start, op.new_end) == op.new_end - op.new_start);
        assert forall|j: int| 0 <= j < rows_of(ops, os, ns).len() implies cell_shows_its_line(
            (#[trigger] rows_of(ops, os, ns)[j]).0,
            os,
            n_old,
        ) && cell_shows_its_line(rows_of(ops, os, ns)[j].1, ns, n_new) by {
            if j < a.len() {
                assert(rows_of(ops, os, ns)[j] == a[j]);
                assert(cell_shows_its_line(a[j].0, os, op.old_start as nat));
                assert(cell_shows_its_line(a[j].1, ns, op.new_start as nat));
            } else {
                let i = j - a.len();
                assert(rows_of(ops, os, ns)[j] == b[i]);
                assert(b[i] == op_row(op, i, os, ns));
            }
        }
    }
}

/// A row that shows one line as context on both sides.
pub open spec fn context_row(r: RowView) -> bool {
    match (r.0, r.1) {
        (Some(a), Some(b)) => a.2 == LineKind::Context && b.2 == LineKind::Context,
        _ => false,
    }
}

/// Laid out along equal runs only, every row shows context on both sides.
pub proof fn law_equal_runs_give_context(
    ops: Seq<LineOp>,
    os: Seq<Seq<SpanView>>,
    ns: Seq<Seq<SpanView>>,
)
    requires
        forall|i: int| 0 <= i < ops.len() ==> (#[trigger] ops[i]).tag == OpTag::Equal,
    ensures
        forall|j: int| 0 <= j < rows_of(ops, os, ns).len() ==> context_row(#[trigger] rows_of(ops, os, ns)[j]),
    decreases ops.len(),
{
    if ops.len() > 0 {
        let front = ops.drop_last();
        assert forall|i: int| 0 <= i < front.len() implies (#[trigger] front[i]).tag == OpTag::Equal by {
            assert(front[i] == ops[i]);
        }
        law_equal_runs_give_context(front, os, ns);
        let a = rows_of(front, os, ns);
        let b = op_rows(ops.last(), os, ns);
        assert(ops.last() == ops[ops.len() - 1]);
        assert(rows_of(ops, os, ns) == a + b);
        assert forall|j: int| 0 <= j < rows_of(ops, os, ns).len() implies context_row(
            #[trigger] rows_of(ops, os, ns)[j],
        ) by {
            if j < a.len() {
                assert(rows_of(ops, os, ns)[j] == a[j]);
            } else {
                assert(rows_of(ops, os, ns)[j] == b[j - a.len()]);
                assert(b[j - a.len()] == op_row(ops.last(), j - a.len(), os, ns));
            }
        }
    }
}

// ---------------------------------------------------------------------------
// How cells look
// ---------------------------------------------------------------------------

/// The background of a cell: the removed-line colour for a deleted line,
/// the inserted-line colour for an inserted one, the editor's otherwise
/// (context, or no line at all).
pub fn cell_background(kind: Option<LineKind>, theme: &Theme) -> (r: Color)
    ensures
        r == match kind {
            Some(LineKind::Delete) => theme.removed_line,
            Some(LineKind::Insert) => theme.inserted_line,
            _ => theme.editor_bg,
        },
{
    match kind {
        Some(LineKind::Delete) => theme.removed_line,
        Some(LineKind::Insert) => theme.inserted_line,
        _ => theme.editor_bg,
    }
}

/// The marks of a line's cell: the stripe at the gutter's edge (none for
/// context), the prefix before the text, and the prefix's colour.
pub struct CellMarks {
    pub stripe: Option<Color>,
    pub prefix: &'static str,
    pub prefix_color: Color,
}

/// A deleted line is marked `-` in the deleted colour, an inserted one `+`
/// in the added colour, each with a stripe of that colour; context gets a
/// space in the muted text colour and no stripe.
pub fn cell_marks(kind: LineKind, theme: &Theme) -> (r: CellMarks)
    ensures
        match kind {
            LineKind::Delete => r.stripe == Some(theme.status_deleted) && r.prefix == "-"
                && r.prefix_color == theme.status_deleted,
            LineKind::Insert => r.stripe == Some(theme.status_added) && r.prefix == "+"
                && r.prefix_color == theme.status_added,
            LineKind::Context => r.stripe is None && r.prefix == " " && r.prefix_color
                == theme.text_muted,
        },
{
    match kind {
        LineKind::Delete => CellMarks {
            stripe: Some(theme.status_deleted),
            prefix: "-",
            prefix_color: theme.status_deleted,
        },
        LineKind::Insert => CellMarks {
            stripe: Some(theme.status_added),
            prefix: "+",
            prefix_color: theme.status_added,
        },
        LineKind::Context => CellMarks { stripe: None, prefix: " ", prefix_color: theme.text_muted },
    }
}

// ---------------------------------------------------------------------------
// Hunks
// ---------------------------------------------------------------------------

/// Whether a row has a deleted line on the left and an inserted one on the
/// right.
pub open spec fn lanes(r: RowView) -> (bool, bool) {
    (
        match r.0 {
            Some(c) => c.2 == LineKind::Delete,
            None => false,
        },
        match r.1 {
            Some(c) => c.2 == LineKind::Insert,
            None => false,
        },
    )
}

pub open spec fn changed(r: RowView) -> bool {
    lanes(r).0 || lanes(r).1
}

/// Row `i` starts a hunk: it is changed and the row before it is not.
pub open spec fn is_hunk_start(rows: Seq<RowView>, i: int) -> bool {
    0 <= i < rows.len() && changed(rows[i]) && (i == 0 || !changed(rows[i - 1]))
}

pub fn row_lanes(row: &DiffRow) -> (r: (bool, bool))
    ensures
        r == lanes(row@),
{
    match row {
        DiffRow::Both { left, right } => (
            left.kind == LineKind::Delete,
            right.kind == LineKind::Insert,
        ),
        DiffRow::LeftOnly { left } => (left.kind == LineKind::Delete, false),
        DiffRow::RightOnly { right } => (false, right.kind == LineKind::Insert),
    }
}

#[derive(Debug, Clone)]
pub struct DiffDoc {
    pub rows: Vec<DiffRow>,
}

/// The largest line number that a row shows.
pub open spec fn row_max(r: RowView) -> nat {
    match r {
        (Some(a), Some(b)) => if a.0 >= b.0 {
            a.0
        } else {
            b.0
        },
        (Some(a), None) => a.0,
        (None, Some(b)) => b.0,
        (None, None) => 0,
    }
}

fn row_max_exec(row: &DiffRow) -> (r: usize)
    ensures
        r == row_max(row@),
{
    match row {
        DiffRow::Both { left, right } => if left.no >= right.no {
            left.no
        } else {
            right.no
        },
        DiffRow::LeftOnly { left } => left.no,
        DiffRow::RightOnly { right } => right.no,
    }
}

impl DiffDoc {
    /// The largest line number in the document, which sizes the gutter: 1
    /// when there are no rows.
    pub fn max_line_number(&self) -> (r: usize)
        ensures
            self.rows@.len() == 0 ==> r == 1,
            forall|i: int| 0 <= i < self.rows@.len() ==> row_max(#[trigger] self.rows@[i]@) <= r,
            self.rows@.len() > 0 ==> exists|i: int|
                0 <= i < self.rows@.len() && row_max(#[trigger] self.rows@[i]@) == r,
    {
        if self.rows.len() == 0 {
            return 1;
        }
        let mut best = row_max_exec(&self.rows[0]);
        let mut at: usize = 0;
        let mut i: usize = 1;
        while i < self.rows.len()
            invariant
                1 <= i <= self.rows@.len(),
                at < i,
                row_max(self.rows@[at as int]@) == best,
                forall|k: int| 0 <= k < i ==> row_max(#[trigger] self.rows@[k]@) <= best,
            decreases self.rows@.len() - i,
        {
            let m = row_max_exec(&self.rows[i]);
            if m > best {
                best = m;
                at = i;
            }
            i += 1;
        }
        proof {
            assert(row_max(self.rows@[at as int]@) == best);
        }
        best
    }

    /// The indices of the rows that start a hunk, in increasing order.
    pub fn hunk_starts(&self) -> (r: Vec<usize>)
        ensures
            forall|i: int| 0 <= i < r.len() ==> is_hunk_start(row_views(self.rows@), #[trigger] r[i] as int),
            forall|i: int| is_hunk_start(row_views(self.rows@), i) ==> #[trigger] r@.contains(i as usize),
            forall|i: int, j: int| 0 <= i < j < r.len() ==> r[i] < r[j],
    {
        let ghost rv = row_views(self.rows@);
        let mut out: Vec<usize> = Vec::new();
        let mut in_hunk = false;
        for i in 0..self.rows.len()
            invariant
                rv == row_views(self.rows@),
                in_hunk == (i > 0 && changed(rv[i - 1])),
                forall|k: int| 0 <= k < out.len() ==> is_hunk_start(rv, #[trigger] out[k] as int),
                forall|k: int| 0 <= k < out.len() ==> #[trigger] out[k] < i,
                forall|m: int| 0 <= m < i && is_hunk_start(rv, m) ==> #[trigger] out@.contains(m as usize),
                forall|a: int, b: int| 0 <= a < b < out.len() ==> out[a] < out[b],
        {
            let (del, ins) = row_lanes(&self.rows[i]);
            let ch = del || ins;
            proof {
                assert(rv[i as int] == self.rows@[i as int]@);
            }
            if ch && !in_hunk {
                let ghost prev = out@;
                out.push(i);
                proof {
                    assert forall|m: int| 0 <= m < i + 1 && is_hunk_start(rv, m) implies #[trigger] out@.contains(m as usize) by {
                        if m < i {
                            assert(prev.contains(m as usize));
                            let w = choose|w: int| 0 <= w < prev.len() && prev[w] == m as usize;
                            assert(out@[w] == m as usize);
                        } else {
                            assert(out@[prev.len() as int] == i);
                        }
                    }
                }
            } else {
                proof {
                    assert forall|m: int| 0 <= m < i + 1 && is_hunk_start(rv, m) implies #[trigger] out@.contains(m as usize) by {
                        if m == i {
                            assert(!is_hunk_start(rv, m));
                        }
                    }
                }
            }
            in_hunk = ch;
        }
        out
    }
}

// ---------------------------------------------------------------------------
// Building the document
// ---------------------------------------------------------------------------

pub open spec fn op_tuple(op: LineOp) -> (OpTag, usize, usize, usize, usize) {
    (op.tag, op.old_start, op.old_end, op.new_start, op.new_end)
}

/// What `similar::TextDiff::from_lines(old, new).ops()` gives, as tuples of
/// tag, old range and new range.
pub uninterp spec fn line_diff_ops(old: Seq<char>, new: Seq<char>) -> Seq<
    (OpTag, usize, usize, usize, usize),
>;

/// A text in which every `\r` starts a `\r\n`.  `similar` ends a line at
/// `\n`, at `\r\n` and at a `\r` alone; without the last kind it cuts such
/// a text into the lines of `lines_of`, each with its line end attached.
pub open spec fn no_lone_cr(s: Seq<char>) -> bool {
    forall|i: int| 0 <= i < s.len() && #[trigger] s[i] == '\r' ==> i + 1 < s.len() && s[i + 1] == '\n'
}

/// Calls `similar::TextDiff::from_lines(old, new)` and reads its operations
/// through `DiffOp::as_tag_tuple`.  The contract names the result, and says
/// what `similar` shows of it: the operations take the lines of both texts
/// from the first to the last, each starting where the one before ended
/// (its documentation lists every line of both sides this way), with equal
/// runs of one length on both sides, deletions without new lines and
/// insertions without old ones; and an equal run pairs equal lines (equal
/// with their line ends, so equal without them).  That is stated where
/// `similar`'s lines are those of `lines_of` (see `no_lone_cr`); which of
/// the possible pairings it picks is left unsaid.  Two equal texts give
/// equal runs only: its scan for a common prefix takes every line.
#[verifier::external_body]
fn text_diff_lines(old: &str, new: &str) -> (r: Vec<LineOp>)
    ensures
        r@.map_values(|op: LineOp| op_tuple(op)) == line_diff_ops(old@, new@),
        old@ == new@ ==> forall|i: int| 0 <= i < r@.len() ==> (#[trigger] r@[i]).tag == OpTag::Equal,
        no_lone_cr(old@) && no_lone_cr(new@) ==> walks(
            r@,
            lines_of(old@).len(),
            lines_of(new@).len(),
        ) && equal_runs_match(r@, lines_of(old@), lines_of(new@)),
{
    similar::TextDiff::from_lines(old, new).ops().iter().map(|op| {
        let (tag, o, n) = op.as_tag_tuple();
        let tag = match tag {
            similar::DiffTag::Equal => OpTag::Equal,
            similar::DiffTag::Delete => OpTag::Delete,
            similar::DiffTag::Insert => OpTag::Insert,
            similar::DiffTag::Replace => OpTag::Replace,
        };
        LineOp { tag, old_start: o.start, old_end: o.end, new_start: n.start, new_end: n.end }
    }).collect()
}

/// The operations of a line diff as `LineOp`s.
pub open spec fn line_ops(old: Seq<char>, new: Seq<char>) -> Seq<LineOp> {
    line_diff_ops(old, new).map_values(
        |t: (OpTag, usize, usize, usize, usize)|
            LineOp { tag: t.0, old_start: t.1, old_end: t.2, new_start: t.3, new_end: t.4 },
    )
}

/// The highlighted lines, with lines that have none given one empty span
/// in the fallback colour, up to `n` lines.
pub open spec fn padded(hi: Seq<Seq<SpanView>>, n: nat, fallback: Color) -> Seq<Seq<SpanView>> {
    if hi.len() < n {
        hi + Seq::new((n - hi.len()) as nat, |i: int| seq![(Seq::<char>::empty(), fallback, false, false)])
    } else {
        hi
    }
}

pub fn pad_spans(hi: Vec<Vec<Span>>, n: usize, fallback: Color) -> (r: Vec<Vec<Span>>)
    ensures
        lines_spans(r@) == padded(lines_spans(hi@), n as nat, fallback),
{
    let mut hi = hi;
    let ghost start = lines_spans(hi@);
    if hi.len() < n {
        let k0 = hi.len();
        while hi.len() < n
            invariant
                k0 <= hi.len() <= n,
                lines_spans(hi@) == start + Seq::new(
                    (hi.len() - k0) as nat,
                    |i: int| seq![(Seq::<char>::empty(), fallback, false, false)],
                ),
                start.len() == k0,
            decreases n - hi.len(),
        {
            let ghost prev = hi@;
            let line = vec![Span { text: String::new(), color: fallback, italics: false, strong: false }];
            proof {
                assert(span_views(line@) =~= seq![(Seq::<char>::empty(), fallback, false, false)]);
            }
            let ghost lv = span_views(line@);
            hi.push(line);
            proof {
                assert(lines_spans(hi@) =~= lines_spans(prev).push(lv));
                let f = |i: int| seq![(Seq::<char>::empty(), fallback, false, false)];
                assert(Seq::new((hi.len() - k0) as nat, f) =~= Seq::new((prev.len() - k0) as nat, f).push(lv));
                assert(lines_spans(hi@) =~= start + Seq::new(
                    (hi.len() - k0) as nat,
                    |i: int| seq![(Seq::<char>::empty(), fallback, false, false)],
                ));
            }
        }
    }
    hi
}

/// Whether `d` is the document of the diff between two texts at `path`,
/// their lines highlighted as `Engine::highlight` highlights them.
pub open spec fn doc_of(
    d: DiffDoc,
    path: Seq<char>,
    original: Seq<char>,
    modified: Seq<char>,
    tokens: TokenColors,
) -> bool {
    row_views(d.rows@) == rows_of(
        line_ops(original, modified),
        padded(highlighting(tokens, path, original), lines_of(original).len(), tokens.default.color),
        padded(highlighting(tokens, path, modified), lines_of(modified).len(), tokens.default.color),
    )
}

impl DiffDoc {
    /// The document of a diff between two texts, highlighted by `engine`
    /// with the theme's token colours: see `from_highlighted`, the lines
    /// being highlighted as `Engine::highlight` does.
    pub fn build(original: &str, modified: &str, path: &str, theme: &Theme, engine: &Engine) -> (d: DiffDoc)
        ensures
            doc_of(d, path@, original@, modified@, theme.tokens),
            no_lone_cr(original@) && no_lone_cr(modified@) ==> side_numbers(
                row_views(d.rows@),
                true,
            ) == numbers(0, lines_of(original@).len()) && side_numbers(row_views(d.rows@), false)
                == numbers(0, lines_of(modified@).len()),
            no_lone_cr(original@) && no_lone_cr(modified@) ==> forall|j: int|
                0 <= j < d.rows@.len() ==> shows_same_line(
                    #[trigger] d.rows@[j]@,
                    lines_of(original@),
                    lines_of(modified@),
                ),
            original@ == modified@ ==> forall|j: int|
                0 <= j < d.rows@.len() ==> context_row(#[trigger] d.rows@[j]@),
            no_lone_cr(original@) && no_lone_cr(modified@) ==> forall|j: int|
                0 <= j < d.rows@.len() ==> cell_shows_its_line(
                    (#[trigger] d.rows@[j]@).0,
                    padded(
                        highlighting(theme.tokens, path@, original@),
                        lines_of(original@).len(),
                        theme.tokens.default.color,
                    ),
                    lines_of(original@).len(),
                ) && cell_shows_its_line(
                    d.rows@[j]@.1,
                    padded(
                        highlighting(theme.tokens, path@, modified@),
                        lines_of(modified@).len(),
                        theme.tokens.default.color,
                    ),
                    lines_of(modified@).len(),
                ),
    {
        let old_hi = engine.highlight(path, original, &theme.tokens);
        let new_hi = engine.highlight(path, modified, &theme.tokens);
        proof {
            assert(lines_spans(old_hi@) =~= span_lists(old_hi@));
            assert(lines_spans(new_hi@) =~= span_lists(new_hi@));
        }
        Self::from_highlighted(original, modified, old_hi, new_hi, theme.tokens.default.color)
    }

    /// The document of a diff between two texts: the line diff's
    /// operations (from `similar`) laid out as rows, each cell carrying its
    /// line's spans from the highlighted lines, padded to the line count.
    pub fn from_highlighted(
        original: &str,
        modified: &str,
        old_hi: Vec<Vec<Span>>,
        new_hi: Vec<Vec<Span>>,
        fallback: Color,
    ) -> (d: DiffDoc)
        ensures
            row_views(d.rows@) == rows_of(
                line_ops(original@, modified@),
                padded(lines_spans(old_hi@), lines_of(original@).len(), fallback),
                padded(lines_spans(new_hi@), lines_of(modified@).len(), fallback),
            ),
            no_lone_cr(original@) && no_lone_cr(modified@) ==> side_numbers(
                row_views(d.rows@),
                true,
            ) == numbers(0, lines_of(original@).len()) && side_numbers(row_views(d.rows@), false)
                == numbers(0, lines_of(modified@).len()),
            no_lone_cr(original@) && no_lone_cr(modified@) ==> forall|j: int|
                0 <= j < d.rows@.len() ==> shows_same_line(
                    #[trigger] d.rows@[j]@,
                    lines_of(original@),
                    lines_of(modified@),
                ),
            original@ == modified@ ==> forall|j: int|
                0 <= j < d.rows@.len() ==> context_row(#[trigger] d.rows@[j]@),
            no_lone_cr(original@) && no_lone_cr(modified@) ==> forall|j: int|
                0 <= j < d.rows@.len() ==> cell_shows_its_line(
                    (#[trigger] d.rows@[j]@).0,
                    padded(lines_spans(old_hi@), lines_of(original@).len(), fallback),
                    lines_of(original@).len(),
                ) && cell_shows_its_line(
                    d.rows@[j]@.1,
                    padded(lines_spans(new_hi@), lines_of(modified@).len(), fallback),
                    lines_of(modified@).len(),
                ),
    {
        let old_lines = split_lines(original);
        let new_lines = split_lines(modified);
        let old_spans = pad_spans(old_hi, old_lines.len(), fallback);
        let new_spans = pad_spans(new_hi, new_lines.len(), fallback);
        let ops = text_diff_lines(original, modified);
        proof {
            assert(ops@ =~= line_ops(original@, modified@)) by {
                assert forall|i: int| 0 <= i < ops@.len() implies ops@[i] == line_ops(
                    original@,
                    modified@,
                )[i] by {
                    assert(op_tuple(ops@[i]) == line_diff_ops(original@, modified@)[i]);
                }
            }
        }
        let rows = rows_from_ops(&ops, &old_spans, &new_spans);
        proof {
            if original@ == modified@ {
                law_equal_runs_give_context(ops@, lines_spans(old_spans@), lines_spans(new_spans@));
                assert forall|j: int| 0 <= j < rows@.len() implies context_row(#[trigger] rows@[j]@) by {
                    assert(row_views(rows@)[j] == rows@[j]@);
                }
            }
            if no_lone_cr(original@) && no_lone_cr(modified@) {
                law_rows_show_every_line(
                    ops@,
                    lines_spans(old_spans@),
                    lines_spans(new_spans@),
                    lines_of(original@).len(),
                    lines_of(modified@).len(),
                );
                law_context_rows_match(
                    ops@,
                    lines_spans(old_spans@),
                    lines_spans(new_spans@),
                    lines_of(original@),
                    lines_of(modified@),
                );
                assert forall|j: int| 0 <= j < rows@.len() implies shows_same_line(
                    #[trigger] rows@[j]@,
                    lines_of(original@),
                    lines_of(modified@),
                ) by {
                    assert(row_views(rows@)[j] == rows@[j]@);
                }
                law_cells_carry_their_lines(
                    ops@,
                    lines_spans(old_spans@),
                    lines_spans(new_spans@),
                    lines_of(original@).len(),
                    lines_of(modified@).len(),
                );
                assert forall|j: int| 0 <= j < rows@.len() implies cell_shows_its_line(
                    (#[trigger] rows@[j]@).0,
                    lines_spans(old_spans@),
                    lines_of(original@).len(),
                ) && cell_shows_its_line(rows@[j]@.1, lines_spans(new_spans@), lines_of(modified@).len()) by {
                    assert(row_views(rows@)[j] == rows@[j]@);
                }
            }
        }
        DiffDoc { rows }
    }
}

} // verus!
