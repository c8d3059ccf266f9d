//! Prefix synchronisation: interleaving a backlog of deleted lines with a
//! backlog of inserted lines by the text that their heads share.

use crate::model::{
    current_lines, current_row, current_rows, lemma_lines_concat, lemma_lines_of_simple_rows,
    pair_row, prepend, rows_result, target_lines, target_row, target_rows, AlignedRow, RowView,
    SyncError,
};
use crate::text::{common_prefix, common_prefix_len, lemma_common_prefix_symmetric};
use vstd::prelude::*;

verus! {

/// Two lines anchor each other when they share more than two leading
/// characters.
pub open spec fn anchored(a: Seq<char>, b: Seq<char>) -> bool {
    common_prefix_len(a, b) > 2
}

/// Offset, counted from `from`, of the first entry of `lines` at or after
/// `from` that is anchored to `probe`.
pub open spec fn first_anchor(lines: Seq<Seq<char>>, from: nat, probe: Seq<char>) -> Option<nat>
    decreases lines.len() - from,
{
    if from >= lines.len() {
        None
    } else if anchored(lines[from as int], probe) {
        Some(0)
    } else {
        match first_anchor(lines, from + 1, probe) {
            Some(p) => Some(p + 1),
            None => None,
        }
    }
}

/// What one step of the synchronisation does at cursors `i` and `j`.
pub enum Step {
    /// The two searches found different offsets.
    Disagree,
    /// The step emits `rows` and moves the cursors to `i` and `j`.
    Emit { rows: Seq<RowView>, i: nat, j: nat },
}

/// One step at cursors `i` into `left` and `j` into `right`.
///
/// `left` is searched from `i` for an anchor of `right[j]`, and `right`
/// from `j` for an anchor of `left[i]`. Two offsets must agree: at offset
/// zero the heads are paired, otherwise the head of `left` goes alone.
/// With one offset only, the side that holds the anchor is drained up to
/// it. With none, the heads are paired as they are.
pub open spec fn sync_step(left: Seq<Seq<char>>, right: Seq<Seq<char>>, i: nat, j: nat) -> Step
    recommends
        i < left.len(),
        j < right.len(),
{
    let head = seq![pair_row(left[i as int], right[j as int])];
    match (first_anchor(left, i, right[j as int]), first_anchor(right, j, left[i as int])) {
        (Some(p), Some(q)) => if p != q {
            Step::Disagree
        } else if p == 0 {
            Step::Emit { rows: head, i: i + 1, j: j + 1 }
        } else {
            Step::Emit { rows: seq![current_row(left[i as int])], i: i + 1, j }
        },
        (None, Some(q)) => Step::Emit {
            rows: target_rows(right.subrange(j as int, (j + q) as int)),
            i,
            j: j + q,
        },
        (Some(p), None) => Step::Emit {
            rows: current_rows(left.subrange(i as int, (i + p) as int)),
            i: i + p,
            j,
        },
        (None, None) => Step::Emit { rows: head, i: i + 1, j: j + 1 },
    }
}

/// The rows that synchronisation yields from cursors `i` and `j` on.
///
/// Steps are taken while both cursors are inside their backlog; what is
/// then left on one side is emitted alone, line by line.
pub open spec fn sync_rows(left: Seq<Seq<char>>, right: Seq<Seq<char>>, i: nat, j: nat) -> Result<
    Seq<RowView>,
    SyncError,
>
    decreases (left.len() - i) + (right.len() - j),
{
    if i >= left.len() {
        if j >= right.len() {
            Ok(Seq::empty())
        } else {
            Ok(target_rows(right.subrange(j as int, right.len() as int)))
        }
    } else if j >= right.len() {
        Ok(current_rows(left.subrange(i as int, left.len() as int)))
    } else {
        match sync_step(left, right, i, j) {
            Step::Disagree => Err(SyncError::OffsetDisagreement),
            Step::Emit { rows, i: ni, j: nj } => {
                proof {
                    lemma_step_advances(left, right, i, j);
                }
                prepend(rows, sync_rows(left, right, ni, nj))
            },
        }
    }
}

/// A found anchor lies inside the backlog, is anchored to the probe, and
/// no entry before it is; where none is found, no entry is anchored.
pub proof fn lemma_first_anchor(lines: Seq<Seq<char>>, from: nat, probe: Seq<char>)
    ensures
        match first_anchor(lines, from, probe) {
            Some(p) => {
                &&& from + p < lines.len()
                &&& anchored(lines[(from + p) as int], probe)
                &&& forall|k: int| from <= k < from + p ==> !anchored(#[trigger] lines[k], probe)
            },
            None => forall|k: int|
                from <= k < lines.len() ==> !anchored(#[trigger] lines[k], probe),
        },
    decreases lines.len() - from,
{
    if from < lines.len() && !anchored(lines[from as int], probe) {
        lemma_first_anchor(lines, from + 1, probe);
    }
}

/// The first anchored entry at offset `p` is what the search finds.
pub proof fn lemma_first_anchor_found(lines: Seq<Seq<char>>, from: nat, probe: Seq<char>, p: nat)
    requires
        from + p < lines.len(),
        anchored(lines[(from + p) as int], probe),
        forall|k: int| from <= k < from + p ==> !anchored(#[trigger] lines[k], probe),
    ensures
        first_anchor(lines, from, probe) == Some(p),
    decreases p,
{
    if p > 0 {
        lemma_first_anchor_found(lines, from + 1, probe, (p - 1) as nat);
    }
}

/// Where no entry from `from` on is anchored, the search finds nothing.
pub proof fn lemma_first_anchor_missing(lines: Seq<Seq<char>>, from: nat, probe: Seq<char>)
    requires
        forall|k: int| from <= k < lines.len() ==> !anchored(#[trigger] lines[k], probe),
    ensures
        first_anchor(lines, from, probe) is None,
    decreases lines.len() - from,
{
    if from < lines.len() {
        lemma_first_anchor_missing(lines, from + 1, probe);
    }
}

/// Every step that does not fail moves at least one cursor forward, and
/// none past the end of its backlog.
pub proof fn lemma_step_advances(left: Seq<Seq<char>>, right: Seq<Seq<char>>, i: nat, j: nat)
    requires
        i < left.len(),
        j < right.len(),
    ensures
        match sync_step(left, right, i, j) {
            Step::Disagree => true,
            Step::Emit { rows, i: ni, j: nj } => {
                &&& i <= ni <= left.len()
                &&& j <= nj <= right.len()
                &&& i + j < ni + nj
            },
        },
{
    lemma_first_anchor(left, i, right[j as int]);
    lemma_first_anchor(right, j, left[i as int]);
    lemma_common_prefix_symmetric(left[i as int], right[j as int]);
}

/// Synchronisation never reports a stalled cursor: that every step
/// advances is proved, not only checked.
pub proof fn lemma_sync_never_stalls(left: Seq<Seq<char>>, right: Seq<Seq<char>>, i: nat, j: nat)
    ensures
        sync_rows(left, right, i, j) != Err::<Seq<RowView>, SyncError>(SyncError::Stalled),
    decreases (left.len() - i) + (right.len() - j),
{
    if i < left.len() && j < right.len() {
        lemma_step_advances(left, right, i, j);
        match sync_step(left, right, i, j) {
            Step::Disagree => {},
            Step::Emit { rows, i: ni, j: nj } => {
                lemma_sync_never_stalls(left, right, ni, nj);
            },
        }
    }
}

/// Synchronisation loses no line and invents none: the rows it yields from
/// cursors `i` and `j` hold, on each side and in order, exactly the lines
/// of that side's backlog from its cursor on.
pub proof fn lemma_sync_conserves(left: Seq<Seq<char>>, right: Seq<Seq<char>>, i: nat, j: nat)
    requires
        i <= left.len(),
        j <= right.len(),
    ensures
        match sync_rows(left, right, i, j) {
            Ok(rows) => {
                &&& current_lines(rows) == left.subrange(i as int, left.len() as int)
                &&& target_lines(rows) == right.subrange(j as int, right.len() as int)
            },
            Err(_) => true,
        },
    decreases (left.len() - i) + (right.len() - j),
{
    let rest_left = left.subrange(i as int, left.len() as int);
    let rest_right = right.subrange(j as int, right.len() as int);
    if i >= left.len() || j >= right.len() {
        lemma_lines_of_simple_rows(rest_left, rest_right);
        if i >= left.len() && j >= right.len() {
            assert(target_rows(rest_right) =~= Seq::<RowView>::empty());
        }
    } else {
        lemma_step_advances(left, right, i, j);
        match sync_step(left, right, i, j) {
            Step::Disagree => {},
            Step::Emit { rows, i: ni, j: nj } => {
                lemma_sync_conserves(left, right, ni, nj);
                match sync_rows(left, right, ni, nj) {
                    Ok(rest) => {
                        let moved_left = left.subrange(i as int, ni as int);
                        let moved_right = right.subrange(j as int, nj as int);
                        lemma_step_conserves(left, right, i, j);
                        lemma_lines_concat(rows, rest);
                        assert(moved_left + left.subrange(ni as int, left.len() as int)
                            =~= rest_left);
                        assert(moved_right + right.subrange(nj as int, right.len() as int)
                            =~= rest_right);
                    },
                    Err(_) => {},
                }
            },
        }
    }
}

/// The rows of one step hold exactly the lines that its cursors pass.
pub proof fn lemma_step_conserves(left: Seq<Seq<char>>, right: Seq<Seq<char>>, i: nat, j: nat)
    requires
        i < left.len(),
        j < right.len(),
    ensures
        match sync_step(left, right, i, j) {
            Step::Disagree => true,
            Step::Emit { rows, i: ni, j: nj } => {
                &&& i <= ni <= left.len()
                &&& j <= nj <= right.len()
                &&& current_lines(rows) == left.subrange(i as int, ni as int)
                &&& target_lines(rows) == right.subrange(j as int, nj as int)
            },
        },
{
    lemma_step_advances(left, right, i, j);
    match sync_step(left, right, i, j) {
        Step::Disagree => {},
        Step::Emit { rows, i: ni, j: nj } => {
            let moved_left = left.subrange(i as int, ni as int);
            let moved_right = right.subrange(j as int, nj as int);
            lemma_lines_of_simple_rows(moved_left, moved_right);
            if ni == i + 1 && nj == j + 1 && rows == seq![
                pair_row(left[i as int], right[j as int]),
            ] {
                assert(rows =~= crate::model::zip_rows(moved_left, moved_right));
            } else if nj == j {
                assert(rows =~= current_rows(moved_left));
                assert(moved_right =~= Seq::<Seq<char>>::empty());
            } else {
                assert(rows =~= target_rows(moved_right));
                assert(moved_left =~= Seq::<Seq<char>>::empty());
            }
        },
    }
}

/// Searches `lines` from index `from` on for the first entry that is
/// anchored to `probe`, and returns its offset from `from`.
pub fn find_anchor(lines: &Vec<String>, from: usize, probe: &str) -> (found: Option<usize>)
    ensures
        match found {
            Some(p) => first_anchor(lines.deep_view(), from as nat, probe@) == Some(p as nat),
            None => first_anchor(lines.deep_view(), from as nat, probe@) is None,
        },
{
    let mut k: usize = from;
    while k < lines.len()
        invariant
            from <= k,
            forall|m: int|
                from <= m < k && m < lines.len() ==> !anchored(
                    #[trigger] lines.deep_view()[m],
                    probe@,
                ),
        decreases lines.len() - k,
    {
        if common_prefix(lines[k].as_str(), probe) > 2 {
            proof {
                lemma_first_anchor_found(
                    lines.deep_view(),
                    from as nat,
                    probe@,
                    (k - from) as nat,
                );
            }
            return Some(k - from);
        }
        k = k + 1;
    }
    proof {
        lemma_first_anchor_missing(lines.deep_view(), from as nat, probe@);
    }
    None
}

/// Appends one row per line of `lines[from..to]`, each with a blank target
/// cell.
pub(crate) fn push_current(rows: &mut Vec<AlignedRow>, lines: &Vec<String>, from: usize, to: usize)
    requires
        from <= to <= lines.len(),
    ensures
        final(rows).deep_view() == old(rows).deep_view() + current_rows(
            lines.deep_view().subrange(from as int, to as int),
        ),
{
    let mut k: usize = from;
    while k < to
        invariant
            from <= k <= to <= lines.len(),
            rows.deep_view() == old(rows).deep_view() + current_rows(
                lines.deep_view().subrange(from as int, k as int),
            ),
        decreases to - k,
    {
        let ghost before = rows.deep_view();
        rows.push(AlignedRow { current: Some(lines[k].clone()), target: None });
        assert(rows.deep_view() =~= before.push(current_row(lines.deep_view()[k as int])));
        k = k + 1;
    }
}

/// Appends one row per line of `lines[from..to]`, each with a blank current
/// cell.
pub(crate) fn push_target(rows: &mut Vec<AlignedRow>, lines: &Vec<String>, from: usize, to: usize)
    requires
        from <= to <= lines.len(),
    ensures
        final(rows).deep_view() == old(rows).deep_view() + target_rows(
            lines.deep_view().subrange(from as int, to as int),
        ),
{
    let mut k: usize = from;
    while k < to
        invariant
            from <= k <= to <= lines.len(),
            rows.deep_view() == old(rows).deep_view() + target_rows(
                lines.deep_view().subrange(from as int, k as int),
            ),
        decreases to - k,
    {
        let ghost before = rows.deep_view();
        rows.push(AlignedRow { current: None, target: Some(lines[k].clone()) });
        assert(rows.deep_view() =~= before.push(target_row(lines.deep_view()[k as int])));
        k = k + 1;
    }
}

/// Interleaves the deleted lines `left` with the inserted lines `right`.
///
/// The rows are those of [`sync_rows`] from the start of both backlogs.
/// The call fails exactly when some step finds two anchors at different
/// offsets. On success no line is lost: each side of the rows holds that
/// side's backlog, in order.
pub fn synchronise(left: &Vec<String>, right: &Vec<String>) -> (res: Result<
    Vec<AlignedRow>,
    SyncError,
>)
    ensures
        rows_result(res) == sync_rows(left.deep_view(), right.deep_view(), 0, 0),
        res != Err::<Vec<AlignedRow>, SyncError>(SyncError::Stalled),
        left.len() == 0 || right.len() == 0 ==> res is Ok,
        res matches Ok(rows) ==> current_lines(rows.deep_view()) == left.deep_view()
            && target_lines(rows.deep_view()) == right.deep_view(),
{
    let ghost l = left.deep_view();
    let ghost r = right.deep_view();
    proof {
        lemma_sync_never_stalls(l, r, 0, 0);
        lemma_sync_conserves(l, r, 0, 0);
        assert(l.subrange(0, l.len() as int) =~= l);
        assert(r.subrange(0, r.len() as int) =~= r);
    }
    let mut rows: Vec<AlignedRow> = Vec::new();
    let mut il: usize = 0;
    let mut ir: usize = 0;
    assert(rows.deep_view() + Seq::<RowView>::empty() =~= Seq::<RowView>::empty());
    while il < left.len() && ir < right.len()
        invariant
            l == left.deep_view(),
            r == right.deep_view(),
            il <= left.len(),
            ir <= right.len(),
            sync_rows(l, r, 0, 0) == prepend(
                rows.deep_view(),
                sync_rows(l, r, il as nat, ir as nat),
            ),
        decreases (left.len() - il) + (right.len() - ir),
    {
        let oil: usize = il;
        let oir: usize = ir;
        let ghost before = rows.deep_view();
        let ret1 = find_anchor(left, il, right[ir].as_str());
        let ret2 = find_anchor(right, ir, left[il].as_str());
        proof {
            lemma_step_advances(l, r, il as nat, ir as nat);
        }
        match (ret1, ret2) {
            (Some(r1), Some(r2)) => {
                if r1 != r2 {
                    return Err(SyncError::OffsetDisagreement);
                }
                if r1 == 0 {
                    rows.push(
                        AlignedRow {
                            current: Some(left[il].clone()),
                            target: Some(right[ir].clone()),
                        },
                    );
                    assert(rows.deep_view() =~= before + seq![
                        pair_row(l[il as int], r[ir as int]),
                    ]);
                    il = il + 1;
                    ir = ir + 1;
                } else {
                    rows.push(AlignedRow { current: Some(left[il].clone()), target: None });
                    assert(rows.deep_view() =~= before + seq![current_row(l[il as int])]);
                    il = il + 1;
                }
            },
            (None, Some(r2)) => {
                push_target(&mut rows, right, ir, ir + r2);
                ir = ir + r2;
            },
            (Some(r1), None) => {
                push_current(&mut rows, left, il, il + r1);
                il = il + r1;
            },
            (None, None) => {
                rows.push(
                    AlignedRow { current: Some(left[il].clone()), target: Some(right[ir].clone()) },
                );
                assert(rows.deep_view() =~= before + seq![pair_row(l[il as int], r[ir as int])]);
                il = il + 1;
                ir = ir + 1;
            },
        }
        if il == oil && ir == oir {
            return Err(SyncError::Stalled);
        }
        proof {
            let step = sync_step(l, r, oil as nat, oir as nat);
            assert(step matches Step::Emit { rows: emitted, i: ni, j: nj } && ni == il && nj == ir
                && rows.deep_view() == before + emitted);
            let tail = sync_rows(l, r, il as nat, ir as nat);
            match tail {
                Ok(rest) => {
                    assert((before + step->rows) + rest =~= before + (step->rows + rest));
                },
                Err(_) => {},
            }
        }
    }
    let ghost before = rows.deep_view();
    push_current(&mut rows, left, il, left.len());
    let ghost between = rows.deep_view();
    push_target(&mut rows, right, ir, right.len());
    proof {
        let rest_left = current_rows(l.subrange(il as int, l.len() as int));
        let rest_right = target_rows(r.subrange(ir as int, r.len() as int));
        if il >= left.len() {
            assert(between =~= before);
            if ir >= right.len() {
                assert(before + rest_right =~= before + Seq::<RowView>::empty());
            }
        } else {
            assert(before + rest_left + rest_right =~= before + rest_left);
        }
    }
    Ok(rows)
}

} // verus!
