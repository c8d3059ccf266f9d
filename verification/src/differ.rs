//! The line differ, and the comparison of two instruction streams that is
//! built on it.

use crate::model::{
    current_column, current_lines, target_column, target_lines, AlignedRow, OpView, RowView,
    SyncError, TaggedOp,
};
use crate::realign::{current_side, lemma_realign_conserves, realign, realign_rows, target_side};
use crate::text::{join_lines, joined, trim, trimmed};
use vstd::prelude::*;

verus! {

/// The edit script that `similar` computes, with the Myers algorithm, from
/// the lines of the text `old` to the lines of the text `new`. Each line
/// of the script is carried with its line ending.
pub uninterp spec fn myers_line_diff(old: Seq<char>, new: Seq<char>) -> Seq<OpView>;

/// `similar::utils::diff_lines` with `Algorithm::Myers`.
///
/// The script that it returns depends on the two texts alone, so it has a
/// name; the contract claims nothing else of it. The body turns each pair
/// of a tag and a borrowed line into an owned operation.
#[verifier::external_body]
fn diff_lines(old: &str, new: &str) -> (ops: Vec<TaggedOp>)
    ensures
        ops.deep_view() == myers_line_diff(old@, new@),
{
    similar::utils::diff_lines(similar::Algorithm::Myers, old, new)
        .into_iter()
        .map(
            |(tag, line)|
                match tag {
                    similar::ChangeTag::Equal => TaggedOp::Equal(line.to_string()),
                    similar::ChangeTag::Delete => TaggedOp::Delete(line.to_string()),
                    similar::ChangeTag::Insert => TaggedOp::Insert(line.to_string()),
                },
        )
        .collect()
}

/// The operation with the white space around its line removed.
pub open spec fn trimmed_op(op: OpView) -> OpView {
    match op {
        OpView::Equal(t) => OpView::Equal(trimmed(t)),
        OpView::Delete(t) => OpView::Delete(trimmed(t)),
        OpView::Insert(t) => OpView::Insert(trimmed(t)),
    }
}

/// The script with the white space around each of its lines removed.
pub open spec fn trimmed_script(ops: Seq<OpView>) -> Seq<OpView> {
    Seq::new(ops.len(), |k: int| trimmed_op(ops[k]))
}

/// The lines, each without the white space that surrounds it.
pub open spec fn trimmed_lines(lines: Seq<Seq<char>>) -> Seq<Seq<char>> {
    Seq::new(lines.len(), |k: int| trimmed(lines[k]))
}

/// The edit script between two instruction streams: the trimmed lines of
/// each stream are joined into a text, the texts are compared line by
/// line, and the line ending is trimmed from each line of the script.
pub open spec fn line_script(current: Seq<Seq<char>>, target: Seq<Seq<char>>) -> Seq<OpView> {
    trimmed_script(
        myers_line_diff(joined(trimmed_lines(current)), joined(trimmed_lines(target))),
    )
}

/// Removes the white space, line ending included, around the line of each
/// operation. Tags and order stay as they are.
pub fn trim_script(ops: &Vec<TaggedOp>) -> (out: Vec<TaggedOp>)
    ensures
        out.deep_view() == trimmed_script(ops.deep_view()),
{
    let mut out: Vec<TaggedOp> = Vec::new();
    let mut k: usize = 0;
    while k < ops.len()
        invariant
            k <= ops.len(),
            out.deep_view() == trimmed_script(ops.deep_view().subrange(0, k as int)),
        decreases ops.len() - k,
    {
        let ghost before = out.deep_view();
        let op = match &ops[k] {
            TaggedOp::Equal(t) => TaggedOp::Equal(trim(t.as_str())),
            TaggedOp::Delete(t) => TaggedOp::Delete(trim(t.as_str())),
            TaggedOp::Insert(t) => TaggedOp::Insert(trim(t.as_str())),
        };
        out.push(op);
        assert(out.deep_view() =~= before.push(trimmed_op(ops.deep_view()[k as int])));
        assert(out.deep_view() =~= trimmed_script(ops.deep_view().subrange(0, k + 1)));
        k = k + 1;
    }
    assert(ops.deep_view().subrange(0, k as int) =~= ops.deep_view());
    out
}

/// Computes the edit script from the `current` to the `target` stream.
/// Lines are compared without the white space that surrounds them.
pub fn line_diff(current: &Vec<String>, target: &Vec<String>) -> (ops: Vec<TaggedOp>)
    ensures
        ops.deep_view() == line_script(current.deep_view(), target.deep_view()),
{
    let old = join_lines(&trim_lines(current));
    let new = join_lines(&trim_lines(target));
    let raw = diff_lines(old.as_str(), new.as_str());
    trim_script(&raw)
}

/// Why two instruction streams could not be aligned.
#[derive(Debug, Clone, Copy, PartialEq, Eq, Structural)]
pub enum CompareError {
    /// The edit script does not reproduce the two streams.
    InvalidScript,
    /// The realignment of the edit script failed.
    Sync(SyncError),
}

/// Whether `ops` is an edit script from `current` to `target`: its equal
/// and delete operations spell `current`, its equal and insert operations
/// spell `target`.
pub open spec fn is_script_of(
    ops: Seq<OpView>,
    current: Seq<Seq<char>>,
    target: Seq<Seq<char>>,
) -> bool {
    current_side(ops) == current && target_side(ops) == target
}

/// The rows for an edit script that is held against the two streams it is
/// meant to lead between.
pub open spec fn aligned(ops: Seq<OpView>, current: Seq<Seq<char>>, target: Seq<Seq<char>>)
    -> Result<Seq<RowView>, CompareError> {
    if !is_script_of(ops, current, target) {
        Err(CompareError::InvalidScript)
    } else {
        match realign_rows(ops) {
            Ok(rows) => Ok(rows),
            Err(e) => Err(CompareError::Sync(e)),
        }
    }
}

/// Model of the outcome of a comparison.
pub open spec fn compare_result(res: Result<Vec<AlignedRow>, CompareError>) -> Result<
    Seq<RowView>,
    CompareError,
> {
    match res {
        Ok(rows) => Ok(rows.deep_view()),
        Err(e) => Err(e),
    }
}

/// The sides of a script that is cut in two are the sides of its parts,
/// one after the other.
pub proof fn lemma_sides_concat(a: Seq<OpView>, b: Seq<OpView>)
    ensures
        current_side(a + b) == current_side(a) + current_side(b),
        target_side(a + b) == target_side(a) + target_side(b),
    decreases a.len(),
{
    if a.len() == 0 {
        assert(a + b =~= b);
        assert(current_side(a) + current_side(b) =~= current_side(b));
        assert(target_side(a) + target_side(b) =~= target_side(b));
    } else {
        lemma_sides_concat(a.skip(1), b);
        assert((a + b).first() == a.first());
        assert((a + b).skip(1) =~= a.skip(1) + b);
        let rest_current = current_side(a.skip(1));
        let rest_target = target_side(a.skip(1));
        match a.first() {
            OpView::Equal(t) => {
                assert(seq![t] + (rest_current + current_side(b)) =~= (seq![t] + rest_current)
                    + current_side(b));
                assert(seq![t] + (rest_target + target_side(b)) =~= (seq![t] + rest_target)
                    + target_side(b));
            },
            OpView::Delete(t) => {
                assert(seq![t] + (rest_current + current_side(b)) =~= (seq![t] + rest_current)
                    + current_side(b));
            },
            OpView::Insert(t) => {
                assert(seq![t] + (rest_target + target_side(b)) =~= (seq![t] + rest_target)
                    + target_side(b));
            },
        }
    }
}

/// No line is lost between two streams and their aligned rows: where
/// `ops` is an edit script from `current` to `target` and its realignment
/// succeeds, every line of `current` stands in exactly one cell of the
/// current column, every line of `target` in exactly one cell of the
/// target column, both in their order, and the columns are of one length.
pub proof fn lemma_no_line_lost(
    ops: Seq<OpView>,
    current: Seq<Seq<char>>,
    target: Seq<Seq<char>>,
)
    requires
        is_script_of(ops, current, target),
    ensures
        match realign_rows(ops) {
            Ok(rows) => {
                &&& current_lines(rows) == current
                &&& target_lines(rows) == target
                &&& current_column(rows).len() == target_column(rows).len()
            },
            Err(_) => true,
        },
{
    lemma_realign_conserves(ops);
}

/// A stream whose lines carry no surrounding white space is its own
/// trimmed form.
pub proof fn lemma_trimmed_lines_fixed(lines: Seq<Seq<char>>)
    requires
        forall|k: int| 0 <= k < lines.len() ==> trimmed(#[trigger] lines[k]) == lines[k],
    ensures
        trimmed_lines(lines) == lines,
{
    assert(trimmed_lines(lines) =~= lines);
}

/// Trims every line of a stream.
pub fn trim_lines(lines: &Vec<String>) -> (out: Vec<String>)
    ensures
        out.deep_view() == trimmed_lines(lines.deep_view()),
{
    let mut out: Vec<String> = Vec::new();
    let mut k: usize = 0;
    while k < lines.len()
        invariant
            k <= lines.len(),
            out.deep_view() == trimmed_lines(lines.deep_view().subrange(0, k as int)),
        decreases lines.len() - k,
    {
        let ghost before = out.deep_view();
        out.push(trim(lines[k].as_str()));
        assert(out.deep_view() =~= before.push(trimmed(lines.deep_view()[k as int])));
        assert(out.deep_view() =~= trimmed_lines(lines.deep_view().subrange(0, k + 1)));
        k = k + 1;
    }
    assert(lines.deep_view().subrange(0, k as int) =~= lines.deep_view());
    out
}

/// Tells whether two streams hold the same lines in the same order.
pub fn same_lines(a: &Vec<String>, b: &Vec<String>) -> (same: bool)
    ensures
        same == (a.deep_view() == b.deep_view()),
{
    if a.len() != b.len() {
        assert(a.deep_view().len() != b.deep_view().len());
        return false;
    }
    let mut k: usize = 0;
    while k < a.len()
        invariant
            k <= a.len(),
            a.len() == b.len(),
            forall|m: int| 0 <= m < k ==> a.deep_view()[m] == b.deep_view()[m],
        decreases a.len() - k,
    {
        if !(a[k] == b[k]) {
            assert(a.deep_view()[k as int] != b.deep_view()[k as int]);
            return false;
        }
        k = k + 1;
    }
    assert(a.deep_view() =~= b.deep_view());
    true
}

/// The two streams that an edit script stands for: the lines of its equal
/// and delete operations, and those of its equal and insert operations.
pub fn script_sides(ops: &Vec<TaggedOp>) -> (sides: (Vec<String>, Vec<String>))
    ensures
        sides.0.deep_view() == current_side(ops.deep_view()),
        sides.1.deep_view() == target_side(ops.deep_view()),
{
    let mut current: Vec<String> = Vec::new();
    let mut target: Vec<String> = Vec::new();
    let mut k: usize = 0;
    assert(ops.deep_view().subrange(0, 0) =~= Seq::<OpView>::empty());
    assert(current.deep_view() =~= Seq::<Seq<char>>::empty());
    assert(target.deep_view() =~= Seq::<Seq<char>>::empty());
    while k < ops.len()
        invariant
            k <= ops.len(),
            current.deep_view() == current_side(ops.deep_view().subrange(0, k as int)),
            target.deep_view() == target_side(ops.deep_view().subrange(0, k as int)),
        decreases ops.len() - k,
    {
        let ghost done = ops.deep_view().subrange(0, k as int);
        let ghost one = seq![ops.deep_view()[k as int]];
        let ghost current_before = current.deep_view();
        let ghost target_before = target.deep_view();
        proof {
            lemma_sides_concat(done, one);
            assert(done + one =~= ops.deep_view().subrange(0, k + 1));
            assert(one.skip(1) =~= Seq::<OpView>::empty());
            assert(one.first() == ops[k as int]@);
            assert(current_side(one.skip(1)) =~= Seq::<Seq<char>>::empty());
            assert(target_side(one.skip(1)) =~= Seq::<Seq<char>>::empty());
        }
        match &ops[k] {
            TaggedOp::Equal(text) => {
                current.push(text.clone());
                target.push(text.clone());
                assert(current_side(one) == seq![text@] + Seq::empty());
                assert(target_side(one) == seq![text@] + Seq::empty());
                assert(current.deep_view() =~= current_before + (seq![text@] + Seq::empty()));
                assert(target.deep_view() =~= target_before + (seq![text@] + Seq::empty()));
            },
            TaggedOp::Delete(text) => {
                current.push(text.clone());
                assert(current_side(one) == seq![text@] + Seq::empty());
                assert(target_side(one) == Seq::<Seq<char>>::empty());
                assert(current.deep_view() =~= current_before + (seq![text@] + Seq::empty()));
                assert(target.deep_view() =~= target_before + Seq::empty());
            },
            TaggedOp::Insert(text) => {
                target.push(text.clone());
                assert(current_side(one) == Seq::<Seq<char>>::empty());
                assert(target_side(one) == seq![text@] + Seq::empty());
                assert(current.deep_view() =~= current_before + Seq::empty());
                assert(target.deep_view() =~= target_before + (seq![text@] + Seq::empty()));
            },
        }
        k = k + 1;
    }
    assert(ops.deep_view().subrange(0, k as int) =~= ops.deep_view());
    (current, target)
}

/// Tells whether `ops` is an edit script from `current` to `target`.
pub fn is_script(ops: &Vec<TaggedOp>, current: &Vec<String>, target: &Vec<String>) -> (valid: bool)
    ensures
        valid == is_script_of(ops.deep_view(), current.deep_view(), target.deep_view()),
{
    let (from, to) = script_sides(ops);
    same_lines(&from, current) && same_lines(&to, target)
}

/// Aligns two streams by an edit script between them.
///
/// A script that does not reproduce the two streams is refused. Else the
/// rows are the realignment of the script, and the call fails exactly
/// when that fails. On success no line is lost: the current column holds
/// the lines of `current`, the target column those of `target`, each once
/// and in order, and the two columns are of one length.
pub fn align_script(ops: &Vec<TaggedOp>, current: &Vec<String>, target: &Vec<String>) -> (res:
    Result<Vec<AlignedRow>, CompareError>)
    ensures
        compare_result(res) == aligned(ops.deep_view(), current.deep_view(), target.deep_view()),
        res != Err::<Vec<AlignedRow>, CompareError>(CompareError::Sync(SyncError::Stalled)),
        res matches Ok(rows) ==> {
            &&& current_column(rows.deep_view()).len() == target_column(rows.deep_view()).len()
            &&& current_lines(rows.deep_view()) == current.deep_view()
            &&& target_lines(rows.deep_view()) == target.deep_view()
        },
{
    if !is_script(ops, current, target) {
        return Err(CompareError::InvalidScript);
    }
    match realign(ops) {
        Ok(rows) => Ok(rows),
        Err(e) => Err(CompareError::Sync(e)),
    }
}

/// Compares two instruction streams and aligns them row by row.
///
/// The edit script between the streams is held against their trimmed
/// lines and realigned. The call fails where the differ's script does not
/// reproduce the streams, as it may where a line holds a line break, and
/// where the realignment of a run finds two anchors at different offsets.
/// On success no line is lost: each column holds the trimmed lines of its
/// stream, each once and in order, and the two columns are of one length.
pub fn compare(current: &Vec<String>, target: &Vec<String>) -> (res: Result<
    Vec<AlignedRow>,
    CompareError,
>)
    ensures
        compare_result(res) == aligned(
            line_script(current.deep_view(), target.deep_view()),
            trimmed_lines(current.deep_view()),
            trimmed_lines(target.deep_view()),
        ),
        res != Err::<Vec<AlignedRow>, CompareError>(CompareError::Sync(SyncError::Stalled)),
        res matches Ok(rows) ==> {
            &&& current_column(rows.deep_view()).len() == target_column(rows.deep_view()).len()
            &&& current_lines(rows.deep_view()) == trimmed_lines(current.deep_view())
            &&& target_lines(rows.deep_view()) == trimmed_lines(target.deep_view())
        },
{
    let ops = line_diff(current, target);
    let trimmed_current = trim_lines(current);
    let trimmed_target = trim_lines(target);
    align_script(&ops, &trimmed_current, &trimmed_target)
}

} // verus!
