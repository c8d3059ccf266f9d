//! The data that flows between the stages: tagged diff operations in,
//! aligned rows out.

use vstd::prelude::*;

verus! {

/// One operation of a line-based edit script between the current and the
/// target instruction stream.
#[derive(Debug, Clone, PartialEq, Eq)]
pub enum TaggedOp {
    /// The line is present on both sides.
    Equal(String),
    /// The line is present on the current side only.
    Delete(String),
    /// The line is present on the target side only.
    Insert(String),
}

/// Mathematical model of a [`TaggedOp`].
pub enum OpView {
    Equal(Seq<char>),
    Delete(Seq<char>),
    Insert(Seq<char>),
}

impl View for TaggedOp {
    type V = OpView;

    open spec fn view(&self) -> OpView {
        match self {
            TaggedOp::Equal(t) => OpView::Equal(t@),
            TaggedOp::Delete(t) => OpView::Delete(t@),
            TaggedOp::Insert(t) => OpView::Insert(t@),
        }
    }
}

impl DeepView for TaggedOp {
    type V = OpView;

    open spec fn deep_view(&self) -> OpView {
        self.view()
    }
}

/// One row of the side-by-side report. A cell that is `None` is blank.
#[derive(Debug, Clone, PartialEq, Eq)]
pub struct AlignedRow {
    pub current: Option<String>,
    pub target: Option<String>,
}

/// Mathematical model of an [`AlignedRow`].
pub struct RowView {
    pub current: Option<Seq<char>>,
    pub target: Option<Seq<char>>,
}

impl View for AlignedRow {
    type V = RowView;

    open spec fn view(&self) -> RowView {
        RowView { current: self.current.deep_view(), target: self.target.deep_view() }
    }
}

impl DeepView for AlignedRow {
    type V = RowView;

    open spec fn deep_view(&self) -> RowView {
        self.view()
    }
}

/// A violated invariant of the prefix synchronisation. Either one signals
/// a defect of the algorithm on the given data, not bad user input.
#[derive(Debug, Clone, Copy, PartialEq, Eq, Structural)]
pub enum SyncError {
    /// Both anchor searches succeeded but found different offsets.
    OffsetDisagreement,
    /// A step moved neither cursor.
    Stalled,
}

/// Row that pairs a current line with a target line.
pub open spec fn pair_row(current: Seq<char>, target: Seq<char>) -> RowView {
    RowView { current: Some(current), target: Some(target) }
}

/// Row that holds a current line beside a blank target cell.
pub open spec fn current_row(current: Seq<char>) -> RowView {
    RowView { current: Some(current), target: None }
}

/// Row that holds a target line beside a blank current cell.
pub open spec fn target_row(target: Seq<char>) -> RowView {
    RowView { current: None, target: Some(target) }
}

/// One row per line, each with a blank target cell.
pub open spec fn current_rows(lines: Seq<Seq<char>>) -> Seq<RowView> {
    Seq::new(lines.len(), |k: int| current_row(lines[k]))
}

/// One row per line, each with a blank current cell.
pub open spec fn target_rows(lines: Seq<Seq<char>>) -> Seq<RowView> {
    Seq::new(lines.len(), |k: int| target_row(lines[k]))
}

/// Positional pairing of two backlogs of the same length.
pub open spec fn zip_rows(left: Seq<Seq<char>>, right: Seq<Seq<char>>) -> Seq<RowView>
    recommends
        left.len() == right.len(),
{
    Seq::new(left.len(), |k: int| pair_row(left[k], right[k]))
}

/// The current-side cells of the rows, blank or not, top to bottom.
pub open spec fn current_column(rows: Seq<RowView>) -> Seq<Option<Seq<char>>> {
    Seq::new(rows.len(), |k: int| rows[k].current)
}

/// The target-side cells of the rows, blank or not, top to bottom.
pub open spec fn target_column(rows: Seq<RowView>) -> Seq<Option<Seq<char>>> {
    Seq::new(rows.len(), |k: int| rows[k].target)
}

/// The lines that a column holds: its cells without the blank ones.
pub open spec fn lines_of(column: Seq<Option<Seq<char>>>) -> Seq<Seq<char>>
    decreases column.len(),
{
    if column.len() == 0 {
        Seq::empty()
    } else {
        match column.last() {
            Some(t) => lines_of(column.drop_last()).push(t),
            None => lines_of(column.drop_last()),
        }
    }
}

/// The current-side lines of the rows, in order.
pub open spec fn current_lines(rows: Seq<RowView>) -> Seq<Seq<char>> {
    lines_of(current_column(rows))
}

/// The target-side lines of the rows, in order.
pub open spec fn target_lines(rows: Seq<RowView>) -> Seq<Seq<char>> {
    lines_of(target_column(rows))
}

/// Rows in front of a tail that may have failed.
pub open spec fn prepend(rows: Seq<RowView>, tail: Result<Seq<RowView>, SyncError>) -> Result<
    Seq<RowView>,
    SyncError,
> {
    match tail {
        Ok(rest) => Ok(rows + rest),
        Err(e) => Err(e),
    }
}

/// Model of the outcome of a function that builds rows.
pub open spec fn rows_result(res: Result<Vec<AlignedRow>, SyncError>) -> Result<
    Seq<RowView>,
    SyncError,
> {
    match res {
        Ok(rows) => Ok(rows.deep_view()),
        Err(e) => Err(e),
    }
}

/// The lines of a column survive concatenation of columns.
pub proof fn lemma_lines_of_concat(a: Seq<Option<Seq<char>>>, b: Seq<Option<Seq<char>>>)
    ensures
        lines_of(a + b) == lines_of(a) + lines_of(b),
    decreases b.len(),
{
    if b.len() == 0 {
        assert(a + b =~= a);
        assert(lines_of(a) + lines_of(b) =~= lines_of(a));
    } else {
        assert((a + b).drop_last() =~= a + b.drop_last());
        assert((a + b).last() == b.last());
        lemma_lines_of_concat(a, b.drop_last());
        match b.last() {
            Some(t) => {
                assert((lines_of(a) + lines_of(b.drop_last())).push(t) =~= lines_of(a) + lines_of(
                    b.drop_last(),
                ).push(t));
            },
            None => {},
        }
    }
}

/// The lines of concatenated rows are the concatenated lines, on each side.
pub proof fn lemma_lines_concat(a: Seq<RowView>, b: Seq<RowView>)
    ensures
        current_lines(a + b) == current_lines(a) + current_lines(b),
        target_lines(a + b) == target_lines(a) + target_lines(b),
{
    assert(current_column(a + b) =~= current_column(a) + current_column(b));
    assert(target_column(a + b) =~= target_column(a) + target_column(b));
    lemma_lines_of_concat(current_column(a), current_column(b));
    lemma_lines_of_concat(target_column(a), target_column(b));
}

/// A column without a blank cell holds every one of its cells as a line.
pub proof fn lemma_lines_of_full(column: Seq<Option<Seq<char>>>, lines: Seq<Seq<char>>)
    requires
        column.len() == lines.len(),
        forall|k: int| 0 <= k < lines.len() ==> column[k] == Some(lines[k]),
    ensures
        lines_of(column) == lines,
    decreases column.len(),
{
    if column.len() == 0 {
        assert(lines =~= Seq::empty());
    } else {
        lemma_lines_of_full(column.drop_last(), lines.drop_last());
        assert(lines.drop_last().push(lines.last()) =~= lines);
    }
}

/// A column of blank cells holds no line.
pub proof fn lemma_lines_of_blank(column: Seq<Option<Seq<char>>>)
    requires
        forall|k: int| 0 <= k < column.len() ==> column[k] is None,
    ensures
        lines_of(column) == Seq::<Seq<char>>::empty(),
    decreases column.len(),
{
    if column.len() > 0 {
        lemma_lines_of_blank(column.drop_last());
    }
}

/// What one-sided rows and zipped rows hold on each side.
pub proof fn lemma_lines_of_simple_rows(left: Seq<Seq<char>>, right: Seq<Seq<char>>)
    ensures
        current_lines(current_rows(left)) == left,
        target_lines(current_rows(left)) == Seq::<Seq<char>>::empty(),
        current_lines(target_rows(right)) == Seq::<Seq<char>>::empty(),
        target_lines(target_rows(right)) == right,
        left.len() == right.len() ==> current_lines(zip_rows(left, right)) == left
            && target_lines(zip_rows(left, right)) == right,
{
    lemma_lines_of_full(current_column(current_rows(left)), left);
    lemma_lines_of_blank(target_column(current_rows(left)));
    lemma_lines_of_blank(current_column(target_rows(right)));
    lemma_lines_of_full(target_column(target_rows(right)), right);
    if left.len() == right.len() {
        lemma_lines_of_full(current_column(zip_rows(left, right)), left);
        lemma_lines_of_full(target_column(zip_rows(left, right)), right);
    }
}

} // verus!
