//! The mathematical model that the contracts of the crate are stated over:
//! what a dataframe holds, the windows that a traversal yields, and the
//! frame that a run of windows materializes to.

use vstd::prelude::*;
use crate::matrix::{column_of, rectangular, shape_accepted, transpose_of};
use crate::util::error::UtahError;
use crate::util::types::{UtahAxis, EMPTY};

verus! {

/// What a window carries: its label and its cells.
pub type WindowModel = (Seq<char>, Seq<i64>);

/// What a dataframe holds: its rows, and the labels of its columns and rows.
pub struct FrameModel {
    pub rows: Seq<Seq<i64>>,
    pub columns: Seq<Seq<char>>,
    pub index: Seq<Seq<char>>,
}

impl FrameModel {
    /// There is one label for each row and for each column, and no label
    /// occurs twice on one axis.
    pub open spec fn wf(self) -> bool {
        &&& self.rows.len() == self.index.len()
        &&& rectangular(self.rows, self.columns.len())
        &&& self.columns.no_duplicates()
        &&& self.index.no_duplicates()
    }

    /// The labels that are traversed along `axis`.
    pub open spec fn labels(self, axis: UtahAxis) -> Seq<Seq<char>> {
        match axis {
            UtahAxis::Row => self.index,
            UtahAxis::Column => self.columns,
        }
    }

    /// The labels of the axis that a traversal along `axis` keeps fixed.
    pub open spec fn other(self, axis: UtahAxis) -> Seq<Seq<char>> {
        match axis {
            UtahAxis::Row => self.columns,
            UtahAxis::Column => self.index,
        }
    }

    /// The cells of window `k` along `axis`.
    pub open spec fn lane(self, axis: UtahAxis, k: int) -> Seq<i64> {
        match axis {
            UtahAxis::Row => self.rows[k],
            UtahAxis::Column => column_of(self.rows, k),
        }
    }

    /// The frame with the cells of window `k` along `axis` replaced by
    /// `cells`.
    pub open spec fn with_lane(self, axis: UtahAxis, k: int, cells: Seq<i64>) -> FrameModel {
        match axis {
            UtahAxis::Row => FrameModel {
                rows: self.rows.update(k, cells),
                columns: self.columns,
                index: self.index,
            },
            UtahAxis::Column => FrameModel {
                rows: Seq::new(self.rows.len(), |i: int| self.rows[i].update(k, cells[i])),
                columns: self.columns,
                index: self.index,
            },
        }
    }

    /// The windows of a traversal along `axis`, in label order.
    pub open spec fn windows(self, axis: UtahAxis) -> Seq<WindowModel> {
        Seq::new(self.labels(axis).len(), |k: int| (self.labels(axis)[k], self.lane(axis, k)))
    }
}

/// The labels of a run of windows.
pub open spec fn labels_of(windows: Seq<WindowModel>) -> Seq<Seq<char>> {
    windows.map_values(|w: WindowModel| w.0)
}

/// The cells of a run of windows.
pub open spec fn cells_of(windows: Seq<WindowModel>) -> Seq<Seq<i64>> {
    windows.map_values(|w: WindowModel| w.1)
}

/// One step of a lazy sequence: `item` is what was handed out, `before` and
/// `after` are what was still to come before and after the step.
pub open spec fn stepped<T>(before: Seq<T>, item: Option<T>, after: Seq<T>) -> bool {
    match item {
        Some(x) => before.len() > 0 && x == before[0] && after == before.skip(1),
        None => before.len() == 0 && after == before,
    }
}

/// The windows of `windows` whose label is among `names`, in their order.
pub open spec fn select_windows(windows: Seq<WindowModel>, names: Seq<Seq<char>>) -> Seq<
    WindowModel,
> {
    windows.filter(|w: WindowModel| names.contains(w.0))
}

/// The windows of `windows` whose label is not among `names`, in their order.
pub open spec fn remove_windows(windows: Seq<WindowModel>, names: Seq<Seq<char>>) -> Seq<
    WindowModel,
> {
    windows.filter(|w: WindowModel| !names.contains(w.0))
}

/// The windows that are left of an appended traversal: those of the
/// traversal, then the appended window unless it was handed out already.
pub open spec fn append_windows(windows: Seq<WindowModel>, extra: Option<WindowModel>) -> Seq<
    WindowModel,
> {
    match extra {
        Some(w) => windows.push(w),
        None => windows,
    }
}

/// Filtering a sequence that is not empty: what its first element gives,
/// then what the rest gives.
pub proof fn lemma_filter_head<T>(s: Seq<T>, p: spec_fn(T) -> bool)
    requires
        s.len() > 0,
    ensures
        s.filter(p) == (if p(s[0]) {
            seq![s[0]]
        } else {
            Seq::<T>::empty()
        }) + s.skip(1).filter(p),
{
    assert(s =~= seq![s[0]] + s.skip(1));
    s.skip(1).lemma_filter_prepend(s[0], p);
}

/// Filtering the empty sequence gives the empty sequence.
pub proof fn lemma_filter_empty<T>(s: Seq<T>, p: spec_fn(T) -> bool)
    requires
        s.len() == 0,
    ensures
        s.filter(p) == Seq::<T>::empty(),
{
    s.lemma_filter_len(p);
    assert(s.filter(p) =~= Seq::<T>::empty());
}

/// What an inner join hands out: a label, the left cells and the right cells.
pub type JoinModel = (Seq<char>, Seq<i64>, Seq<i64>);

/// What an outer join hands out: a label, the left cells, and the right
/// cells where the label has any.
pub type OuterModel = (Seq<char>, Seq<i64>, Option<Seq<i64>>);

/// The lookup that a join makes of its right-hand windows: each label that
/// occurs, with the cells of the last window that carries it.
pub open spec fn lookup_of(windows: Seq<WindowModel>) -> Map<Seq<char>, Seq<i64>>
    decreases windows.len(),
{
    if windows.len() == 0 {
        Map::empty()
    } else {
        lookup_of(windows.drop_last()).insert(windows.last().0, windows.last().1)
    }
}

/// The left windows whose label the lookup knows, in their order, each with
/// the cells that the lookup holds for its label.
pub open spec fn inner_join(left: Seq<WindowModel>, right: Map<Seq<char>, Seq<i64>>) -> Seq<
    JoinModel,
> {
    left.filter(|w: WindowModel| right.contains_key(w.0)).map_values(
        |w: WindowModel| (w.0, w.1, right[w.0]),
    )
}

/// What the lookup holds for a label, if anything.
pub open spec fn looked_up(right: Map<Seq<char>, Seq<i64>>, label: Seq<char>) -> Option<Seq<i64>> {
    if right.contains_key(label) {
        Some(right[label])
    } else {
        None
    }
}

/// Every left window, in order, with what the lookup holds for its label.
pub open spec fn outer_join(left: Seq<WindowModel>, right: Map<Seq<char>, Seq<i64>>) -> Seq<
    OuterModel,
> {
    left.map_values(|w: WindowModel| (w.0, w.1, looked_up(right, w.0)))
}

/// The rows that an inner join materializes to: left cells, then right cells.
pub open spec fn joined_rows(items: Seq<JoinModel>) -> Seq<WindowModel> {
    items.map_values(|j: JoinModel| (j.0, j.1 + j.2))
}

/// `width` missing cells.
pub open spec fn fill(width: nat) -> Seq<i64> {
    Seq::new(width, |i: int| EMPTY)
}

/// The rows that an outer join materializes to: left cells, then the right
/// cells, or `width` missing cells where there are none.
pub open spec fn filled_rows(items: Seq<OuterModel>, width: nat) -> Seq<WindowModel> {
    items.map_values(
        |j: OuterModel|
            (
                j.0,
                j.1 + (match j.2 {
                    Some(cells) => cells,
                    None => fill(width),
                }),
            ),
    )
}

/// The lookup of a run of windows knows exactly the labels that occur in it.
pub proof fn lemma_lookup_keys(windows: Seq<WindowModel>, label: Seq<char>)
    ensures
        lookup_of(windows).contains_key(label) <==> labels_of(windows).contains(label),
    decreases windows.len(),
{
    if windows.len() > 0 {
        let init = windows.drop_last();
        lemma_lookup_keys(init, label);
        if labels_of(windows).contains(label) {
            let k = choose|k: int| 0 <= k < windows.len() && labels_of(windows)[k] == label;
            if k < windows.len() - 1 {
                assert(labels_of(init)[k] == label);
            }
        }
        if labels_of(init).contains(label) {
            let k = choose|k: int| 0 <= k < init.len() && labels_of(init)[k] == label;
            assert(labels_of(windows)[k] == label);
        }
        if windows.last().0 == label {
            assert(labels_of(windows)[windows.len() - 1] == label);
        }
    }
}

/// Where no label occurs twice, the lookup holds for each label the cells of
/// the one window that carries it.
pub proof fn lemma_lookup_value(windows: Seq<WindowModel>, k: int)
    requires
        0 <= k < windows.len(),
        labels_of(windows).no_duplicates(),
    ensures
        lookup_of(windows).contains_key(windows[k].0),
        lookup_of(windows)[windows[k].0] == windows[k].1,
    decreases windows.len(),
{
    let init = windows.drop_last();
    if k < windows.len() - 1 {
        assert forall|a: int, b: int|
            0 <= a < init.len() && 0 <= b < init.len() && a != b implies labels_of(init)[a]
            != labels_of(init)[b] by {
            assert(labels_of(windows)[a] == labels_of(init)[a]);
            assert(labels_of(windows)[b] == labels_of(init)[b]);
        }
        lemma_lookup_value(init, k);
        assert(labels_of(windows)[k] != labels_of(windows)[windows.len() - 1]);
    }
}

/// An inner join of left windows that are not empty: what the first gives,
/// then the join of the rest.
pub proof fn lemma_inner_join_head(left: Seq<WindowModel>, right: Map<Seq<char>, Seq<i64>>)
    requires
        left.len() > 0,
    ensures
        inner_join(left, right) == (if right.contains_key(left[0].0) {
            seq![(left[0].0, left[0].1, right[left[0].0])]
        } else {
            Seq::<JoinModel>::empty()
        }) + inner_join(left.skip(1), right),
{
    let keep = |w: WindowModel| right.contains_key(w.0);
    let pair = |w: WindowModel| (w.0, w.1, right[w.0]);
    lemma_filter_head(left, keep);
    let rest = left.skip(1).filter(keep);
    if right.contains_key(left[0].0) {
        assert((seq![left[0]] + rest).map_values(pair) =~= seq![pair(left[0])] + rest.map_values(
            pair,
        ));
    } else {
        assert((Seq::<WindowModel>::empty() + rest).map_values(pair) =~= Seq::<JoinModel>::empty()
            + rest.map_values(pair));
    }
}

/// An inner join of no left window is empty.
pub proof fn lemma_inner_join_empty(left: Seq<WindowModel>, right: Map<Seq<char>, Seq<i64>>)
    requires
        left.len() == 0,
    ensures
        inner_join(left, right) == Seq::<JoinModel>::empty(),
{
    lemma_filter_empty(left, |w: WindowModel| right.contains_key(w.0));
    assert(inner_join(left, right) =~= Seq::<JoinModel>::empty());
}

/// Where no element passes, filtering leaves nothing.
pub proof fn lemma_filter_none<T>(s: Seq<T>, p: spec_fn(T) -> bool)
    requires
        forall|i: int| 0 <= i < s.len() ==> !p(#[trigger] s[i]),
    ensures
        s.filter(p) == Seq::<T>::empty(),
    decreases s.len(),
{
    if s.len() == 0 {
        lemma_filter_empty(s, p);
    } else {
        lemma_filter_head(s, p);
        assert forall|i: int| 0 <= i < s.skip(1).len() implies !p(#[trigger] s.skip(1)[i]) by {
            assert(s.skip(1)[i] == s[i + 1]);
        }
        lemma_filter_none(s.skip(1), p);
        assert(Seq::<T>::empty() + Seq::<T>::empty() =~= Seq::<T>::empty());
    }
}

/// Where every element passes, filtering leaves everything.
pub proof fn lemma_filter_all<T>(s: Seq<T>, p: spec_fn(T) -> bool)
    requires
        forall|i: int| 0 <= i < s.len() ==> p(#[trigger] s[i]),
    ensures
        s.filter(p) == s,
    decreases s.len(),
{
    if s.len() == 0 {
        lemma_filter_empty(s, p);
        assert(s =~= Seq::<T>::empty());
    } else {
        lemma_filter_head(s, p);
        assert forall|i: int| 0 <= i < s.skip(1).len() implies p(#[trigger] s.skip(1)[i]) by {
            assert(s.skip(1)[i] == s[i + 1]);
        }
        lemma_filter_all(s.skip(1), p);
        assert(seq![s[0]] + s.skip(1) =~= s);
    }
}

/// A matrix of `nrows` rows and `ncols` columns can be stored.
pub open spec fn storable(nrows: nat, ncols: nat) -> bool {
    shape_accepted(nrows, ncols, nrows * ncols)
}

/// No matrix with more columns than `isize` counts can be stored.
pub proof fn lemma_wide_not_storable(nrows: nat, ncols: nat)
    requires
        ncols > isize::MAX,
    ensures
        !storable(nrows, ncols),
{
    if nrows != 0 {
        assert(nrows * ncols >= ncols) by (nonlinear_arith)
            requires
                nrows >= 1,
        ;
    }
}

/// The lanes fill a matrix: there are `other_len` cells in each, and the
/// matrix can be stored.
pub open spec fn fills(lanes: Seq<Seq<i64>>, other_len: nat) -> bool {
    rectangular(lanes, other_len) && storable(lanes.len(), other_len)
}

/// What materializing labelled lanes along `axis` gives, `other` being the
/// labels of the axis that the traversal kept fixed.
pub open spec fn assemble(
    labels: Seq<Seq<char>>,
    lanes: Seq<Seq<i64>>,
    other: Seq<Seq<char>>,
    axis: UtahAxis,
) -> Result<FrameModel, UtahError> {
    if !fills(lanes, other.len()) {
        Err(UtahError::ShapeMismatch)
    } else if !labels.no_duplicates() || !other.no_duplicates() {
        Err(UtahError::LabelConflict)
    } else {
        Ok(
            match axis {
                UtahAxis::Row => FrameModel { rows: lanes, columns: other, index: labels },
                UtahAxis::Column => FrameModel {
                    rows: transpose_of(lanes, other.len()),
                    columns: labels,
                    index: other,
                },
            },
        )
    }
}

/// What materializing lanes along `axis` into a bare matrix gives: its rows
/// and its number of columns.
pub open spec fn assemble_matrix(lanes: Seq<Seq<i64>>, other_len: nat, axis: UtahAxis) -> Result<
    (Seq<Seq<i64>>, nat),
    UtahError,
> {
    if !fills(lanes, other_len) {
        Err(UtahError::ShapeMismatch)
    } else {
        Ok(
            match axis {
                UtahAxis::Row => (lanes, other_len),
                UtahAxis::Column => (transpose_of(lanes, other_len), lanes.len()),
            },
        )
    }
}

/// The deep view of a vector of cells is its view.
pub proof fn lemma_cells_deep_view(cells: Vec<i64>)
    ensures
        cells.deep_view() == cells@,
{
    assert(cells.deep_view() =~= cells@);
}

/// The deep view of a vector of lanes holds the view of each lane.
pub proof fn lemma_lanes_deep_view(lanes: Vec<Vec<i64>>)
    ensures
        lanes.deep_view().len() == lanes.len(),
        forall|k: int| 0 <= k < lanes.len() ==> (#[trigger] lanes.deep_view()[k]) == lanes[k]@,
{
    assert forall|k: int| 0 <= k < lanes.len() implies (#[trigger] lanes.deep_view()[k])
        == lanes[k]@ by {
        lemma_cells_deep_view(lanes[k]);
    }
}

/// Replacing one window of a valid frame by as many cells leaves a valid
/// frame with the same labels, in which that window shows the new cells and
/// every other window shows what it showed.
pub proof fn lemma_with_lane(frame: FrameModel, axis: UtahAxis, k: int, cells: Seq<i64>)
    requires
        frame.wf(),
        0 <= k < frame.labels(axis).len(),
        cells.len() == frame.other(axis).len(),
    ensures
        frame.with_lane(axis, k, cells).wf(),
        frame.with_lane(axis, k, cells).columns == frame.columns,
        frame.with_lane(axis, k, cells).index == frame.index,
        frame.with_lane(axis, k, cells).lane(axis, k) == cells,
        forall|j: int|
            0 <= j < frame.labels(axis).len() && j != k ==> #[trigger] frame.with_lane(
                axis,
                k,
                cells,
            ).lane(axis, j) == frame.lane(axis, j),
{
    let after = frame.with_lane(axis, k, cells);
    match axis {
        UtahAxis::Row => {},
        UtahAxis::Column => {
            assert(after.lane(axis, k) =~= cells);
            assert forall|j: int| 0 <= j < frame.labels(axis).len() && j != k implies after.lane(
                axis,
                j,
            ) == frame.lane(axis, j) by {
                assert(after.lane(axis, j) =~= frame.lane(axis, j));
            }
        },
    }
}

/// Every window of a valid frame has one cell for each label of the other
/// axis.
pub proof fn lemma_lane_len(frame: FrameModel, axis: UtahAxis, k: int)
    requires
        frame.wf(),
        0 <= k < frame.labels(axis).len(),
    ensures
        frame.lane(axis, k).len() == frame.other(axis).len(),
        frame.windows(axis)[k] == (frame.labels(axis)[k], frame.lane(axis, k)),
{
}

/// Transposing twice gives the matrix back.
pub proof fn lemma_transpose_twice(rows: Seq<Seq<i64>>, ncols: nat)
    requires
        rectangular(rows, ncols),
    ensures
        transpose_of(transpose_of(rows, ncols), rows.len()) == rows,
        rectangular(transpose_of(rows, ncols), rows.len()),
{
    let t = transpose_of(rows, ncols);
    let tt = transpose_of(t, rows.len());
    assert forall|i: int| 0 <= i < rows.len() implies #[trigger] tt[i] == rows[i] by {
        assert(tt[i] =~= rows[i]);
    }
    assert(tt =~= rows);
}

} // verus!
