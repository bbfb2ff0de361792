//! Laws that relate the operations of the library to one another.

use vstd::prelude::*;
use crate::combinators::aggregate::{scalars_of, ReducedModel};
use crate::matrix::transpose_of;
use crate::model::{
    append_windows,
    assemble,
    assemble_matrix,
    cells_of,
    fill,
    filled_rows,
    inner_join,
    labels_of,
    lemma_filter_all,
    lemma_filter_none,
    lemma_lookup_keys,
    lemma_lookup_value,
    lemma_transpose_twice,
    lookup_of,
    outer_join,
    remove_windows,
    select_windows,
    storable,
    FrameModel,
    WindowModel,
};
use crate::util::error::UtahError;
use crate::util::types::UtahAxis;

verus! {

/// Removing from a selection the labels that were selected leaves nothing,
/// whatever the windows and the labels are.
pub proof fn law_remove_what_was_selected(windows: Seq<WindowModel>, names: Seq<Seq<char>>)
    ensures
        remove_windows(select_windows(windows, names), names) == Seq::<WindowModel>::empty(),
{
    let keep = |w: WindowModel| names.contains(w.0);
    let drop = |w: WindowModel| !names.contains(w.0);
    let chosen = windows.filter(keep);
    assert forall|i: int| 0 <= i < chosen.len() implies !drop(#[trigger] chosen[i]) by {
        windows.lemma_filter_pred(keep, i);
    }
    lemma_filter_none(chosen, drop);
}

/// Selecting every label of a frame along an axis and then removing every
/// label leaves no window; selecting no label yields no window; removing no
/// label yields every window of the frame, in order.
pub proof fn law_select_remove(frame: FrameModel, axis: UtahAxis)
    ensures
        remove_windows(
            select_windows(frame.windows(axis), frame.labels(axis)),
            frame.labels(axis),
        ) == Seq::<WindowModel>::empty(),
        select_windows(frame.windows(axis), Seq::<Seq<char>>::empty()) == Seq::<
            WindowModel,
        >::empty(),
        remove_windows(frame.windows(axis), Seq::<Seq<char>>::empty()) == frame.windows(axis),
{
    let none = Seq::<Seq<char>>::empty();
    law_remove_what_was_selected(frame.windows(axis), frame.labels(axis));
    lemma_filter_none(frame.windows(axis), |w: WindowModel| none.contains(w.0));
    lemma_filter_all(frame.windows(axis), |w: WindowModel| !none.contains(w.0));
}

/// Selecting every label of a valid frame along an axis yields every window
/// of the frame, in order.
pub proof fn law_select_all(frame: FrameModel, axis: UtahAxis)
    ensures
        select_windows(frame.windows(axis), frame.labels(axis)) == frame.windows(axis),
{
    let names = frame.labels(axis);
    let ws = frame.windows(axis);
    assert forall|i: int| 0 <= i < ws.len() implies names.contains((#[trigger] ws[i]).0) by {
        assert(names[i] == ws[i].0);
    }
    lemma_filter_all(ws, |w: WindowModel| names.contains(w.0));
}

/// An inner join of windows with themselves, no label occurring twice,
/// yields one pair for each window, in order, and both sides of a pair show
/// the cells of that window.
pub proof fn law_inner_join_self(windows: Seq<WindowModel>)
    requires
        labels_of(windows).no_duplicates(),
    ensures
        inner_join(windows, lookup_of(windows)).len() == windows.len(),
        forall|k: int|
            0 <= k < windows.len() ==> #[trigger] inner_join(windows, lookup_of(windows))[k] == (
                windows[k].0,
                windows[k].1,
                windows[k].1,
            ),
{
    let right = lookup_of(windows);
    let keep = |w: WindowModel| right.contains_key(w.0);
    assert forall|i: int| 0 <= i < windows.len() implies keep(#[trigger] windows[i]) by {
        lemma_lookup_value(windows, i);
    }
    lemma_filter_all(windows, keep);
    assert forall|k: int| 0 <= k < windows.len() implies #[trigger] inner_join(windows, right)[k]
        == (windows[k].0, windows[k].1, windows[k].1) by {
        lemma_lookup_value(windows, k);
    }
}

/// The inner join of a valid frame with itself yields one pair for each row
/// label, and both sides of each pair show that row.
pub proof fn law_inner_join_frame(frame: FrameModel)
    requires
        frame.wf(),
    ensures
        inner_join(
            frame.windows(UtahAxis::Row),
            lookup_of(frame.windows(UtahAxis::Row)),
        ).len() == frame.index.len(),
        forall|k: int|
            0 <= k < frame.index.len() ==> #[trigger] inner_join(
                frame.windows(UtahAxis::Row),
                lookup_of(frame.windows(UtahAxis::Row)),
            )[k] == (frame.index[k], frame.rows[k], frame.rows[k]),
{
    let ws = frame.windows(UtahAxis::Row);
    assert(labels_of(ws) =~= frame.index);
    law_inner_join_self(ws);
}

/// An outer join hands out one item for each row of the left frame. For a
/// row whose label the right frame does not have, the item has no right
/// cells, and the row that it materializes to is the left row followed by
/// as many missing cells as the right frame has columns.
pub proof fn law_outer_join(left: FrameModel, right: FrameModel)
    requires
        left.wf(),
        right.wf(),
    ensures
        outer_join(
            left.windows(UtahAxis::Row),
            lookup_of(right.windows(UtahAxis::Row)),
        ).len() == left.index.len(),
        forall|k: int|
            0 <= k < left.index.len() && !right.index.contains(left.index[k]) ==> {
                &&& (#[trigger] outer_join(
                    left.windows(UtahAxis::Row),
                    lookup_of(right.windows(UtahAxis::Row)),
                )[k]).2 is None
                &&& filled_rows(
                    outer_join(
                        left.windows(UtahAxis::Row),
                        lookup_of(right.windows(UtahAxis::Row)),
                    ),
                    right.columns.len(),
                )[k] == (left.index[k], left.rows[k] + fill(right.columns.len()))
            },
        forall|k: int|
            0 <= k < left.index.len() && right.index.contains(left.index[k]) ==> (
            #[trigger] outer_join(
                left.windows(UtahAxis::Row),
                lookup_of(right.windows(UtahAxis::Row)),
            )[k]).2 is Some,
{
    let lw = left.windows(UtahAxis::Row);
    let rw = right.windows(UtahAxis::Row);
    assert(labels_of(rw) =~= right.index);
    assert forall|k: int| 0 <= k < left.index.len() implies (lookup_of(rw).contains_key(
        left.index[k],
    ) <==> right.index.contains(left.index[k])) by {
        lemma_lookup_keys(rw, left.index[k]);
    }
}

/// The rows of a frame followed by the same rows again materialize to a
/// matrix with twice as many rows and as many columns: the rows of the
/// frame, twice over.
pub proof fn law_concat_self_matrix(frame: FrameModel)
    requires
        frame.wf(),
        storable(2 * frame.rows.len(), frame.columns.len()),
    ensures
        assemble_matrix(
            cells_of(frame.windows(UtahAxis::Row) + frame.windows(UtahAxis::Row)),
            frame.columns.len(),
            UtahAxis::Row,
        ) == Ok::<(Seq<Seq<i64>>, nat), UtahError>((frame.rows + frame.rows, frame.columns.len())),
        (frame.rows + frame.rows).len() == 2 * frame.rows.len(),
{
    let ws = frame.windows(UtahAxis::Row);
    assert(cells_of(ws + ws) =~= frame.rows + frame.rows);
}

/// The rows of a frame followed by the same rows again materialize to a
/// frame only where there is no row, since a row would carry its label
/// twice. The frame then has twice the number of rows, which is none, and
/// the columns of the first.
pub proof fn law_concat_self_frame(frame: FrameModel)
    requires
        frame.wf(),
        storable(2 * frame.rows.len(), frame.columns.len()),
    ensures
        assemble(
            labels_of(frame.windows(UtahAxis::Row) + frame.windows(UtahAxis::Row)),
            cells_of(frame.windows(UtahAxis::Row) + frame.windows(UtahAxis::Row)),
            frame.columns,
            UtahAxis::Row,
        ) == (if frame.rows.len() == 0 {
            Ok::<FrameModel, UtahError>(frame)
        } else {
            Err::<FrameModel, UtahError>(UtahError::LabelConflict)
        }),
{
    let ws = frame.windows(UtahAxis::Row);
    let labels = labels_of(ws + ws);
    assert(cells_of(ws + ws) =~= frame.rows + frame.rows);
    assert(labels =~= frame.index + frame.index);
    if frame.rows.len() == 0 {
        assert(cells_of(ws + ws) =~= frame.rows);
        assert(labels =~= frame.index);
    } else {
        assert(labels[0] == labels[frame.index.len() as int]);
    }
}

/// The rows of one frame followed by the rows of another with as many
/// columns and other row labels materialize to the frame that has the rows
/// of both, in that order, under the column labels of the first.
pub proof fn law_concat_rows(first: FrameModel, second: FrameModel)
    requires
        first.wf(),
        second.wf(),
        second.columns.len() == first.columns.len(),
        (first.index + second.index).no_duplicates(),
        storable(first.rows.len() + second.rows.len(), first.columns.len()),
    ensures
        assemble(
            labels_of(first.windows(UtahAxis::Row) + second.windows(UtahAxis::Row)),
            cells_of(first.windows(UtahAxis::Row) + second.windows(UtahAxis::Row)),
            first.columns,
            UtahAxis::Row,
        ) == Ok::<FrameModel, UtahError>(
            FrameModel {
                rows: first.rows + second.rows,
                columns: first.columns,
                index: first.index + second.index,
            },
        ),
{
    let ws = first.windows(UtahAxis::Row) + second.windows(UtahAxis::Row);
    assert(cells_of(ws) =~= first.rows + second.rows);
    assert(labels_of(ws) =~= first.index + second.index);
}

/// Traversing a valid frame along either axis and materializing the
/// traversal gives the frame back: the same cells and the same labels.
pub proof fn law_round_trip(frame: FrameModel, axis: UtahAxis)
    requires
        frame.wf(),
        storable(frame.index.len(), frame.columns.len()),
    ensures
        assemble(
            labels_of(frame.windows(axis)),
            cells_of(frame.windows(axis)),
            frame.other(axis),
            axis,
        ) == Ok::<FrameModel, UtahError>(frame),
{
    let ws = frame.windows(axis);
    assert(labels_of(ws) =~= frame.labels(axis));
    match axis {
        UtahAxis::Row => {
            assert(cells_of(ws) =~= frame.rows);
        },
        UtahAxis::Column => {
            let lanes = cells_of(ws);
            assert(lanes =~= transpose_of(frame.rows, frame.columns.len()));
            lemma_transpose_twice(frame.rows, frame.columns.len());
            assert(frame.index.len() * frame.columns.len() == frame.columns.len()
                * frame.index.len()) by (nonlinear_arith);
        },
    }
}

/// Appending a window under a label that the traversal does not have, and
/// then selecting that label, yields the appended window alone, with the
/// cells it was given.
pub proof fn law_append_then_select(windows: Seq<WindowModel>, extra: WindowModel)
    requires
        !labels_of(windows).contains(extra.0),
    ensures
        select_windows(append_windows(windows, Some(extra)), seq![extra.0]) == seq![extra],
{
    let names = seq![extra.0];
    let keep = |w: WindowModel| names.contains(w.0);
    assert(names[0] == extra.0);
    assert forall|i: int| 0 <= i < windows.len() implies !keep(#[trigger] windows[i]) by {
        assert(labels_of(windows)[i] == windows[i].0);
    }
    lemma_filter_none(windows, keep);
    windows.lemma_filter_push(extra, keep);
    assert(Seq::<WindowModel>::empty().push(extra) =~= seq![extra]);
}

/// Where every item has a scalar, the items materialize to one window of one
/// cell each.
pub proof fn law_scalars_all_ok(items: Seq<ReducedModel>)
    requires
        forall|k: int| 0 <= k < items.len() ==> (#[trigger] items[k]).1 is Ok,
    ensures
        scalars_of(items) == Ok::<Seq<WindowModel>, UtahError>(
            items.map_values(|it: ReducedModel| (it.0, seq![it.1->Ok_0])),
        ),
    decreases items.len(),
{
    let lane = |it: ReducedModel| (it.0, seq![it.1->Ok_0]);
    if items.len() == 0 {
        assert(items.map_values(lane) =~= Seq::<WindowModel>::empty());
    } else {
        let init = items.drop_last();
        assert forall|k: int| 0 <= k < init.len() implies (#[trigger] init[k]).1 is Ok by {
            assert(init[k] == items[k]);
        }
        law_scalars_all_ok(init);
        assert(items.last() == items[items.len() - 1]);
        assert(items.map_values(lane) =~= init.map_values(lane).push(lane(items.last())));
    }
}

} // verus!
