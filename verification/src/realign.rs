//! Realignment: turning the edit script of a line diff into aligned rows.
//!
//! Deleted and inserted lines pile up in a run between two equal lines.
//! Each run is resolved into rows before the equal line that ends it, and
//! the last one at the end of the script.

use crate::model::{
    current_column, current_lines, current_rows, lemma_lines_concat, lemma_lines_of_simple_rows,
    pair_row, prepend, rows_result, target_column, target_lines, target_rows, zip_rows,
    AlignedRow, OpView, RowView, SyncError, TaggedOp,
};
use crate::sync::{
    lemma_sync_conserves, lemma_sync_never_stalls, push_current, push_target, sync_rows,
    synchronise,
};
use vstd::prelude::*;

verus! {

/// The shape of a run, by which of its two backlogs hold lines.
#[derive(Debug, Clone, Copy, PartialEq, Eq, Structural)]
pub enum RunKind {
    /// Neither backlog holds a line.
    Balanced,
    /// Only the current side holds lines.
    CurrentOnly,
    /// Only the target side holds lines.
    TargetOnly,
    /// Both sides hold lines.
    Mixed,
}

/// The lines that piled up between two equal lines of the edit script.
#[derive(Debug, Clone, PartialEq, Eq)]
pub struct Run {
    /// Lines that only the current side has, in script order.
    pub deleted: Vec<String>,
    /// Lines that only the target side has, in script order.
    pub inserted: Vec<String>,
}

/// The kind of a run with backlogs `deleted` and `inserted`.
pub open spec fn run_kind(deleted: Seq<Seq<char>>, inserted: Seq<Seq<char>>) -> RunKind {
    if deleted.len() == 0 && inserted.len() == 0 {
        RunKind::Balanced
    } else if inserted.len() == 0 {
        RunKind::CurrentOnly
    } else if deleted.len() == 0 {
        RunKind::TargetOnly
    } else {
        RunKind::Mixed
    }
}

/// The rows into which a run resolves.
///
/// A one-sided run gives one row per line, the other cell blank. A mixed
/// run with backlogs of one length is paired by position; with different
/// lengths it is synchronised by prefix.
pub open spec fn run_rows(deleted: Seq<Seq<char>>, inserted: Seq<Seq<char>>) -> Result<
    Seq<RowView>,
    SyncError,
> {
    match run_kind(deleted, inserted) {
        RunKind::Balanced => Ok(Seq::empty()),
        RunKind::CurrentOnly => Ok(current_rows(deleted)),
        RunKind::TargetOnly => Ok(target_rows(inserted)),
        RunKind::Mixed => if deleted.len() == inserted.len() {
            Ok(zip_rows(deleted, inserted))
        } else {
            sync_rows(deleted, inserted, 0, 0)
        },
    }
}

/// The rows for the operations of `ops` from index `k` on, entered with the
/// backlogs `deleted` and `inserted` of the run that is open at `k`.
pub open spec fn realign_from(
    ops: Seq<OpView>,
    k: nat,
    deleted: Seq<Seq<char>>,
    inserted: Seq<Seq<char>>,
) -> Result<Seq<RowView>, SyncError>
    decreases ops.len() - k,
{
    if k >= ops.len() {
        run_rows(deleted, inserted)
    } else {
        match ops[k as int] {
            OpView::Delete(t) => realign_from(ops, k + 1, deleted.push(t), inserted),
            OpView::Insert(t) => realign_from(ops, k + 1, deleted, inserted.push(t)),
            OpView::Equal(t) => match run_rows(deleted, inserted) {
                Ok(rows) => prepend(
                    rows.push(pair_row(t, t)),
                    realign_from(ops, k + 1, Seq::empty(), Seq::empty()),
                ),
                Err(e) => Err(e),
            },
        }
    }
}

/// The aligned rows of a whole edit script.
pub open spec fn realign_rows(ops: Seq<OpView>) -> Result<Seq<RowView>, SyncError> {
    realign_from(ops, 0, Seq::empty(), Seq::empty())
}

/// The current-side input that an edit script stands for: the lines of its
/// equal and delete operations, in order.
pub open spec fn current_side(ops: Seq<OpView>) -> Seq<Seq<char>>
    decreases ops.len(),
{
    if ops.len() == 0 {
        Seq::empty()
    } else {
        match ops.first() {
            OpView::Equal(t) => seq![t] + current_side(ops.skip(1)),
            OpView::Delete(t) => seq![t] + current_side(ops.skip(1)),
            OpView::Insert(_) => current_side(ops.skip(1)),
        }
    }
}

/// The target-side input that an edit script stands for: the lines of its
/// equal and insert operations, in order.
pub open spec fn target_side(ops: Seq<OpView>) -> Seq<Seq<char>>
    decreases ops.len(),
{
    if ops.len() == 0 {
        Seq::empty()
    } else {
        match ops.first() {
            OpView::Equal(t) => seq![t] + target_side(ops.skip(1)),
            OpView::Insert(t) => seq![t] + target_side(ops.skip(1)),
            OpView::Delete(_) => target_side(ops.skip(1)),
        }
    }
}

/// Every row has a cell on both sides, blank or not: the two columns of
/// any rows are of one length.
pub proof fn lemma_columns_same_length(rows: Seq<RowView>)
    ensures
        current_column(rows).len() == target_column(rows).len(),
        current_column(rows).len() == rows.len(),
{
}

/// A run whose backlogs are of one length resolves into their positional
/// pairing, and no cell of it is blank.
pub proof fn lemma_balanced_run_zips(deleted: Seq<Seq<char>>, inserted: Seq<Seq<char>>)
    requires
        deleted.len() == inserted.len(),
    ensures
        run_rows(deleted, inserted) == Ok::<Seq<RowView>, SyncError>(zip_rows(deleted, inserted)),
        zip_rows(deleted, inserted).len() == deleted.len(),
        forall|k: int|
            0 <= k < deleted.len() ==> (#[trigger] zip_rows(deleted, inserted)[k]) == pair_row(
                deleted[k],
                inserted[k],
            ),
        forall|k: int|
            0 <= k < deleted.len() ==> (#[trigger] current_column(
                zip_rows(deleted, inserted),
            )[k]) is Some && (#[trigger] target_column(zip_rows(deleted, inserted))[k]) is Some,
{
    if deleted.len() == 0 {
        assert(zip_rows(deleted, inserted) =~= Seq::<RowView>::empty());
    }
}

/// Resolving a run loses no line and invents none: each side of its rows
/// holds that side's backlog, in order. Nor does it ever report a stalled
/// cursor.
pub proof fn lemma_run_conserves(deleted: Seq<Seq<char>>, inserted: Seq<Seq<char>>)
    ensures
        run_rows(deleted, inserted) != Err::<Seq<RowView>, SyncError>(SyncError::Stalled),
        match run_rows(deleted, inserted) {
            Ok(rows) => current_lines(rows) == deleted && target_lines(rows) == inserted,
            Err(_) => true,
        },
{
    lemma_lines_of_simple_rows(deleted, inserted);
    lemma_sync_conserves(deleted, inserted, 0, 0);
    lemma_sync_never_stalls(deleted, inserted, 0, 0);
    assert(deleted.subrange(0, deleted.len() as int) =~= deleted);
    assert(inserted.subrange(0, inserted.len() as int) =~= inserted);
    if deleted.len() == 0 {
        assert(deleted =~= Seq::<Seq<char>>::empty());
    }
    if inserted.len() == 0 {
        assert(inserted =~= Seq::<Seq<char>>::empty());
    }
    if deleted.len() == 0 && inserted.len() == 0 {
        assert(current_rows(deleted) =~= Seq::<RowView>::empty());
    }
}

/// The rows from index `k` on hold, on each side, the open backlog of that
/// side followed by that side's lines of the remaining operations.
pub proof fn lemma_realign_from_conserves(
    ops: Seq<OpView>,
    k: nat,
    deleted: Seq<Seq<char>>,
    inserted: Seq<Seq<char>>,
)
    requires
        k <= ops.len(),
    ensures
        realign_from(ops, k, deleted, inserted) != Err::<Seq<RowView>, SyncError>(
            SyncError::Stalled,
        ),
        match realign_from(ops, k, deleted, inserted) {
            Ok(rows) => {
                &&& current_lines(rows) == deleted + current_side(
                    ops.subrange(k as int, ops.len() as int),
                )
                &&& target_lines(rows) == inserted + target_side(
                    ops.subrange(k as int, ops.len() as int),
                )
            },
            Err(_) => true,
        },
    decreases ops.len() - k,
{
    let rest = ops.subrange(k as int, ops.len() as int);
    lemma_run_conserves(deleted, inserted);
    if k >= ops.len() {
        assert(deleted + current_side(rest) =~= deleted);
        assert(inserted + target_side(rest) =~= inserted);
    } else {
        assert(rest.first() == ops[k as int]);
        assert(rest.skip(1) =~= ops.subrange((k + 1) as int, ops.len() as int));
        let after_current = current_side(rest.skip(1));
        let after_target = target_side(rest.skip(1));
        match ops[k as int] {
            OpView::Delete(t) => {
                lemma_realign_from_conserves(ops, k + 1, deleted.push(t), inserted);
                assert(deleted.push(t) + after_current =~= deleted + (seq![t] + after_current));
            },
            OpView::Insert(t) => {
                lemma_realign_from_conserves(ops, k + 1, deleted, inserted.push(t));
                assert(inserted.push(t) + after_target =~= inserted + (seq![t] + after_target));
            },
            OpView::Equal(t) => {
                let none = Seq::<Seq<char>>::empty();
                lemma_realign_from_conserves(ops, k + 1, none, none);
                match (run_rows(deleted, inserted), realign_from(ops, k + 1, none, none)) {
                    (Ok(rows), Ok(tail)) => {
                        let line = seq![pair_row(t, t)];
                        assert(rows.push(pair_row(t, t)) =~= rows + line);
                        lemma_lines_of_simple_rows(seq![t], seq![t]);
                        assert(line =~= zip_rows(seq![t], seq![t]));
                        lemma_lines_concat(rows, line);
                        lemma_lines_concat(rows + line, tail);
                        assert(deleted + seq![t] + (none + after_current) =~= deleted + (seq![t]
                            + after_current));
                        assert(inserted + seq![t] + (none + after_target) =~= inserted + (seq![t]
                            + after_target));
                    },
                    _ => {},
                }
            },
        }
    }
}

/// Realignment loses no line and invents none: the current cells of the
/// rows that are not blank are, in order, the current side of the edit
/// script, and the target cells its target side. So every line of either
/// input stands in exactly one cell of its column.
pub proof fn lemma_realign_conserves(ops: Seq<OpView>)
    ensures
        realign_rows(ops) != Err::<Seq<RowView>, SyncError>(SyncError::Stalled),
        match realign_rows(ops) {
            Ok(rows) => {
                &&& current_lines(rows) == current_side(ops)
                &&& target_lines(rows) == target_side(ops)
                &&& current_column(rows).len() == target_column(rows).len()
            },
            Err(_) => true,
        },
{
    let none = Seq::<Seq<char>>::empty();
    lemma_realign_from_conserves(ops, 0, none, none);
    assert(ops.subrange(0, ops.len() as int) =~= ops);
    assert(none + current_side(ops) =~= current_side(ops));
    assert(none + target_side(ops) =~= target_side(ops));
}

impl Run {
    /// Model of the run: its two backlogs as sequences of lines.
    pub open spec fn deleted_lines(&self) -> Seq<Seq<char>> {
        self.deleted.deep_view()
    }

    /// Model of the inserted backlog.
    pub open spec fn inserted_lines(&self) -> Seq<Seq<char>> {
        self.inserted.deep_view()
    }

    /// A run without lines.
    pub fn new() -> (run: Run)
        ensures
            run.deleted_lines() == Seq::<Seq<char>>::empty(),
            run.inserted_lines() == Seq::<Seq<char>>::empty(),
    {
        let run = Run { deleted: Vec::new(), inserted: Vec::new() };
        assert(run.deleted.deep_view() =~= Seq::<Seq<char>>::empty());
        assert(run.inserted.deep_view() =~= Seq::<Seq<char>>::empty());
        run
    }

    /// The kind of this run.
    pub fn kind(&self) -> (kind: RunKind)
        ensures
            kind == run_kind(self.deleted_lines(), self.inserted_lines()),
    {
        if self.deleted.len() == 0 && self.inserted.len() == 0 {
            RunKind::Balanced
        } else if self.inserted.len() == 0 {
            RunKind::CurrentOnly
        } else if self.deleted.len() == 0 {
            RunKind::TargetOnly
        } else {
            RunKind::Mixed
        }
    }

    /// Resolves the run into rows.
    ///
    /// The rows are those of [`run_rows`]. The call fails only for a mixed
    /// run with backlogs of different lengths in which some step of the
    /// synchronisation finds two anchors at different offsets.
    pub fn resolve(&self) -> (res: Result<Vec<AlignedRow>, SyncError>)
        ensures
            rows_result(res) == run_rows(self.deleted_lines(), self.inserted_lines()),
            res != Err::<Vec<AlignedRow>, SyncError>(SyncError::Stalled),
            self.deleted_lines().len() == self.inserted_lines().len() || self.deleted_lines().len()
                == 0 || self.inserted_lines().len() == 0 ==> res is Ok,
            res matches Ok(rows) ==> current_lines(rows.deep_view()) == self.deleted_lines()
                && target_lines(rows.deep_view()) == self.inserted_lines(),
    {
        proof {
            lemma_run_conserves(self.deleted_lines(), self.inserted_lines());
        }
        match self.kind() {
            RunKind::Balanced => {
                let rows: Vec<AlignedRow> = Vec::new();
                assert(rows.deep_view() =~= Seq::<RowView>::empty());
                Ok(rows)
            },
            RunKind::CurrentOnly => {
                let mut rows: Vec<AlignedRow> = Vec::new();
                push_current(&mut rows, &self.deleted, 0, self.deleted.len());
                assert(rows.deep_view() =~= current_rows(self.deleted_lines())) by {
                    let lines = self.deleted_lines();
                    assert(lines.subrange(0, lines.len() as int) =~= lines);
                }
                Ok(rows)
            },
            RunKind::TargetOnly => {
                let mut rows: Vec<AlignedRow> = Vec::new();
                push_target(&mut rows, &self.inserted, 0, self.inserted.len());
                assert(rows.deep_view() =~= target_rows(self.inserted_lines())) by {
                    let lines = self.inserted_lines();
                    assert(lines.subrange(0, lines.len() as int) =~= lines);
                }
                Ok(rows)
            },
            RunKind::Mixed => if self.deleted.len() == self.inserted.len() {
                Ok(zip(&self.deleted, &self.inserted))
            } else {
                synchronise(&self.deleted, &self.inserted)
            },
        }
    }
}

/// Pairs two backlogs of one length by position.
fn zip(left: &Vec<String>, right: &Vec<String>) -> (rows: Vec<AlignedRow>)
    requires
        left.len() == right.len(),
    ensures
        rows.deep_view() == zip_rows(left.deep_view(), right.deep_view()),
{
    let mut rows: Vec<AlignedRow> = Vec::new();
    let mut k: usize = 0;
    while k < left.len()
        invariant
            k <= left.len(),
            left.len() == right.len(),
            rows.deep_view() == zip_rows(
                left.deep_view().subrange(0, k as int),
                right.deep_view().subrange(0, k as int),
            ),
        decreases left.len() - k,
    {
        let ghost before = rows.deep_view();
        rows.push(AlignedRow { current: Some(left[k].clone()), target: Some(right[k].clone()) });
        assert(rows.deep_view() =~= before.push(
            pair_row(left.deep_view()[k as int], right.deep_view()[k as int]),
        ));
        k = k + 1;
    }
    assert(left.deep_view().subrange(0, k as int) =~= left.deep_view());
    assert(right.deep_view().subrange(0, k as int) =~= right.deep_view());
    rows
}

/// Turns an edit script into aligned rows.
///
/// The rows are those of [`realign_rows`]: every run is resolved before
/// the equal line that ends it, the equal line becomes a row with the same
/// text in both cells, and the last run is resolved at the end. The call
/// fails exactly when the synchronisation of some run does. On success the
/// two columns are of one length, and each holds, in order and once, the
/// lines of its side of the script.
pub fn realign(ops: &Vec<TaggedOp>) -> (res: Result<Vec<AlignedRow>, SyncError>)
    ensures
        rows_result(res) == realign_rows(ops.deep_view()),
        res != Err::<Vec<AlignedRow>, SyncError>(SyncError::Stalled),
        res matches Ok(rows) ==> {
            &&& current_column(rows.deep_view()).len() == target_column(rows.deep_view()).len()
            &&& current_lines(rows.deep_view()) == current_side(ops.deep_view())
            &&& target_lines(rows.deep_view()) == target_side(ops.deep_view())
        },
{
    let ghost script = ops.deep_view();
    proof {
        lemma_realign_conserves(script);
    }
    let mut rows: Vec<AlignedRow> = Vec::new();
    let mut run = Run::new();
    let mut k: usize = 0;
    assert(rows.deep_view() =~= Seq::<RowView>::empty());
    assert forall|tail: Result<Seq<RowView>, SyncError>|
        prepend(Seq::<RowView>::empty(), tail) == tail by {
        match tail {
            Ok(rest) => assert(Seq::<RowView>::empty() + rest =~= rest),
            Err(_) => {},
        }
    }
    while k < ops.len()
        invariant
            k <= ops.len(),
            script == ops.deep_view(),
            realign_rows(script) == prepend(
                rows.deep_view(),
                realign_from(script, k as nat, run.deleted_lines(), run.inserted_lines()),
            ),
        decreases ops.len() - k,
    {
        let ghost before = rows.deep_view();
        let ghost deleted = run.deleted_lines();
        let ghost inserted = run.inserted_lines();
        match &ops[k] {
            TaggedOp::Equal(text) => {
                let mut resolved = match run.resolve() {
                    Ok(resolved) => resolved,
                    Err(e) => {
                        return Err(e);
                    },
                };
                let ghost run_part = resolved.deep_view();
                rows.append(&mut resolved);
                rows.push(AlignedRow { current: Some(text.clone()), target: Some(text.clone()) });
                run = Run::new();
                proof {
                    let emitted = run_part.push(pair_row(text@, text@));
                    assert(rows.deep_view() =~= before + emitted);
                    let none = Seq::<Seq<char>>::empty();
                    match realign_from(script, (k + 1) as nat, none, none) {
                        Ok(rest) => {
                            assert(before + (emitted + rest) =~= (before + emitted) + rest);
                        },
                        Err(_) => {},
                    }
                }
            },
            TaggedOp::Delete(text) => {
                run.deleted.push(text.clone());
                assert(run.deleted_lines() =~= deleted.push(text@));
            },
            TaggedOp::Insert(text) => {
                run.inserted.push(text.clone());
                assert(run.inserted_lines() =~= inserted.push(text@));
            },
        }
        k = k + 1;
    }
    let ghost before = rows.deep_view();
    let mut resolved = match run.resolve() {
        Ok(resolved) => resolved,
        Err(e) => {
            return Err(e);
        },
    };
    let ghost run_part = resolved.deep_view();
    rows.append(&mut resolved);
    assert(rows.deep_view() =~= before + run_part);
    Ok(rows)
}

} // verus!
