//! The report: aligned rows rendered as two columns of text.

use crate::model::{AlignedRow, RowView};
use vstd::prelude::*;

verus! {

/// The text of a cell: its line, or nothing for a blank cell.
pub open spec fn cell_text(cell: Option<Seq<char>>) -> Seq<char> {
    match cell {
        Some(t) => t,
        None => Seq::empty(),
    }
}

/// `n` spaces.
pub open spec fn spaces(n: nat) -> Seq<char> {
    Seq::new(n, |k: int| ' ')
}

/// `text` filled up with spaces to `width` characters. A text that is as
/// long or longer stays as it is.
pub open spec fn padded(text: Seq<char>, width: nat) -> Seq<char> {
    if text.len() < width {
        text + spaces((width - text.len()) as nat)
    } else {
        text
    }
}

/// Width of the current column: the length of its longest cell.
pub open spec fn column_width(rows: Seq<RowView>) -> nat
    decreases rows.len(),
{
    if rows.len() == 0 {
        0
    } else {
        let before = column_width(rows.drop_last());
        let last = cell_text(rows.last().current).len();
        if last > before {
            last
        } else {
            before
        }
    }
}

/// The header of the report for a current column of `width` characters.
pub open spec fn header_line(width: nat) -> Seq<char> {
    padded("current:"@, width) + " | target:"@
}

/// The gap between a target cell of `len` characters and the marker: the
/// target column is one character wider than the current one.
pub open spec fn marker_gap(len: nat, width: nat) -> nat {
    if len <= width {
        (width + 1 - len) as nat
    } else {
        0
    }
}

/// One row of the report: the current cell padded to `width`, a
/// separator, the target cell, and a marker where the two texts differ.
pub open spec fn row_line(row: RowView, width: nat) -> Seq<char> {
    let current = cell_text(row.current);
    let target = cell_text(row.target);
    let cells = padded(current, width) + " | "@ + target;
    if current == target {
        cells
    } else {
        cells + spaces(marker_gap(target.len(), width)) + "<==========="@
    }
}

/// The report: the header, then one line per row.
pub open spec fn report(rows: Seq<RowView>) -> Seq<Seq<char>> {
    let width = column_width(rows);
    seq![header_line(width)] + Seq::new(rows.len(), |k: int| row_line(rows[k], width))
}

/// The width is the length of the longest current cell: no cell is longer,
/// and where there are rows, one of them is that long.
pub proof fn lemma_column_width(rows: Seq<RowView>)
    ensures
        forall|k: int|
            0 <= k < rows.len() ==> cell_text(#[trigger] rows[k].current).len() <= column_width(
                rows,
            ),
        rows.len() > 0 ==> exists|k: int|
            0 <= k < rows.len() && cell_text(#[trigger] rows[k].current).len() == column_width(
                rows,
            ),
        rows.len() == 0 ==> column_width(rows) == 0,
    decreases rows.len(),
{
    if rows.len() > 0 {
        let front = rows.drop_last();
        lemma_column_width(front);
        assert forall|k: int| 0 <= k < rows.len() implies cell_text(
            #[trigger] rows[k].current,
        ).len() <= column_width(rows) by {
            if k < front.len() {
                assert(front[k] == rows[k]);
            }
        }
        let last = cell_text(rows.last().current).len();
        if last > column_width(front) || front.len() == 0 {
            assert(cell_text(rows[rows.len() - 1].current).len() == column_width(rows));
        } else {
            let k = choose|k: int|
                0 <= k < front.len() && cell_text(#[trigger] front[k].current).len()
                    == column_width(front);
            assert(front[k] == rows[k]);
        }
    }
}

/// The text of a cell as an owned string.
fn cell_string(cell: &Option<String>) -> (text: String)
    ensures
        text@ == cell_text(cell.deep_view()),
{
    match cell {
        Some(t) => t.clone(),
        None => String::new(),
    }
}

/// Appends `n` spaces to `text`.
fn push_spaces(text: &mut String, n: usize)
    ensures
        final(text)@ == old(text)@ + spaces(n as nat),
{
    let mut k: usize = 0;
    assert(text@ =~= old(text)@ + spaces(0));
    while k < n
        invariant
            k <= n,
            text@ == old(text)@ + spaces(k as nat),
        decreases n - k,
    {
        proof {
            reveal_strlit(" ");
        }
        text.append(" ");
        assert(text@ =~= old(text)@ + spaces((k + 1) as nat));
        k = k + 1;
    }
}

/// Computes the width of the current column: the length, in characters,
/// of its longest cell.
pub fn current_width(rows: &Vec<AlignedRow>) -> (width: usize)
    ensures
        width == column_width(rows.deep_view()),
{
    let mut width: usize = 0;
    let mut k: usize = 0;
    assert(rows.deep_view().subrange(0, 0) =~= Seq::<RowView>::empty());
    while k < rows.len()
        invariant
            k <= rows.len(),
            width == column_width(rows.deep_view().subrange(0, k as int)),
        decreases rows.len() - k,
    {
        let text = cell_string(&rows[k].current);
        let len: usize = text.as_str().unicode_len();
        proof {
            let upto = rows.deep_view().subrange(0, k + 1);
            assert(upto.drop_last() =~= rows.deep_view().subrange(0, k as int));
            assert(upto.last() == rows[k as int].deep_view());
        }
        if len > width {
            width = len;
        }
        k = k + 1;
    }
    assert(rows.deep_view().subrange(0, k as int) =~= rows.deep_view());
    width
}

/// Renders the header for a current column of `width` characters.
pub fn render_header(width: usize) -> (line: String)
    ensures
        line@ == header_line(width as nat),
{
    let mut line = String::new();
    line.append("current:");
    let len: usize = "current:".unicode_len();
    assert(line@ =~= "current:"@);
    if len < width {
        push_spaces(&mut line, width - len);
    }
    line.append(" | target:");
    line
}

/// Renders one row for a current column of `width` characters.
pub fn render_row(row: &AlignedRow, width: usize) -> (line: String)
    ensures
        line@ == row_line(row.deep_view(), width as nat),
{
    let current = cell_string(&row.current);
    let target = cell_string(&row.target);
    let current_len: usize = current.as_str().unicode_len();
    let target_len: usize = target.as_str().unicode_len();
    let mut line = current.clone();
    if current_len < width {
        push_spaces(&mut line, width - current_len);
    }
    line.append(" | ");
    line.append(target.as_str());
    if !(current == target) {
        let ghost cells = line@;
        if target_len <= width {
            push_spaces(&mut line, width - target_len);
            push_spaces(&mut line, 1);
            assert(line@ =~= cells + spaces(marker_gap(target_len as nat, width as nat)));
        } else {
            assert(line@ =~= cells + spaces(0));
        }
        line.append("<===========");
    }
    line
}

/// Renders the report: the header, then one line per row. The current
/// column is as wide as its longest cell; a row whose two texts differ
/// ends in a marker.
pub fn render(rows: &Vec<AlignedRow>) -> (lines: Vec<String>)
    ensures
        lines.deep_view() == report(rows.deep_view()),
{
    let width = current_width(rows);
    let mut lines: Vec<String> = Vec::new();
    lines.push(render_header(width));
    let mut k: usize = 0;
    let ghost model = rows.deep_view();
    assert(lines.deep_view() =~= seq![header_line(width as nat)] + Seq::new(
        0,
        |m: int| row_line(model[m], width as nat),
    ));
    while k < rows.len()
        invariant
            k <= rows.len(),
            model == rows.deep_view(),
            width == column_width(model),
            lines.deep_view() == seq![header_line(width as nat)] + Seq::new(
                k as nat,
                |m: int| row_line(model[m], width as nat),
            ),
        decreases rows.len() - k,
    {
        let ghost before = lines.deep_view();
        lines.push(render_row(&rows[k], width));
        assert(lines.deep_view() =~= before.push(row_line(model[k as int], width as nat)));
        assert(lines.deep_view() =~= seq![header_line(width as nat)] + Seq::new(
            (k + 1) as nat,
            |m: int| row_line(model[m], width as nat),
        ));
        k = k + 1;
    }
    lines
}

} // verus!
