//! Combinators over two sequences of windows: concatenation and joins.

use vstd::prelude::*;
use vstd::hash_map::StringHashMap;
use crate::dataframe::{frame_result_is, DataFrame};
use crate::materialize::{
    array_from_windows,
    collect_array,
    collect_frame,
    collect_matrix,
    frame_from_windows,
    matrix_from_windows,
    matrix_result_is,
    owned_model,
    OwnedWindow,
};
use crate::matrix::{Matrix, SliceView};
use crate::model::{
    assemble,
    assemble_matrix,
    cells_of,
    fill,
    filled_rows,
    inner_join,
    joined_rows,
    labels_of,
    lemma_inner_join_empty,
    lemma_inner_join_head,
    lemma_wide_not_storable,
    lookup_of,
    outer_join,
    stepped,
    JoinModel,
    OuterModel,
    WindowModel,
};
use crate::util::error::UtahError;
use crate::util::labels::copy_labels;
use crate::util::traits::{Window, WindowStream};
use crate::util::types::{UtahAxis, EMPTY};

verus! {

/// Two sequences of windows, one after the other.
pub struct Chain<I, J> {
    pub first: I,
    pub second: J,
}

impl<'a, I: WindowStream<'a>, J: WindowStream<'a>> WindowStream<'a> for Chain<I, J> {
    open spec fn wf(&self) -> bool {
        self.first.wf() && self.second.wf()
    }

    open spec fn remaining(&self) -> Seq<WindowModel> {
        self.first.remaining() + self.second.remaining()
    }

    fn next(&mut self) -> (w: Option<Window<'a>>) {
        match self.first.next() {
            Some(w) => {
                proof {
                    assert(self.remaining() =~= old(self).remaining().skip(1));
                }
                Some(w)
            },
            None => {
                let w = self.second.next();
                proof {
                    assert(old(self).remaining() =~= old(self).second.remaining());
                    assert(self.remaining() =~= self.second.remaining());
                }
                w
            },
        }
    }
}

/// The windows of one frame followed by those of another along the same
/// axis, with the labels of the axis that both keep fixed.
pub struct Concat<I> {
    pub concat_data: I,
    pub concat_other: Vec<String>,
    pub axis: UtahAxis,
}

impl<I> Concat<I> {
    /// Chains `left_df` and `right_df`, two traversals along `axis`;
    /// `left_other` holds the labels of the axis that both keep fixed.
    pub fn new(left_df: I, right_df: I, left_other: Vec<String>, axis: UtahAxis) -> (c: Concat<
        Chain<I, I>,
    >)
        ensures
            c.concat_data.first == left_df,
            c.concat_data.second == right_df,
            c.concat_other == left_other,
            c.axis == axis,
    {
        Concat {
            concat_data: Chain { first: left_df, second: right_df },
            concat_other: left_other,
            axis,
        }
    }
}

impl<'a, I: WindowStream<'a>> WindowStream<'a> for Concat<I> {
    open spec fn wf(&self) -> bool {
        self.concat_data.wf()
    }

    open spec fn remaining(&self) -> Seq<WindowModel> {
        self.concat_data.remaining()
    }

    fn next(&mut self) -> (w: Option<Window<'a>>)
        ensures
            final(self).concat_other == old(self).concat_other,
            final(self).axis == old(self).axis,
    {
        self.concat_data.next()
    }
}

impl<'a, I: WindowStream<'a>> Concat<I> {
    /// Drains both traversals into a frame: along `Row` the windows are
    /// stacked as rows under the kept column labels, along `Column` they
    /// stand side by side as columns beside the kept row labels.
    pub fn as_df(self) -> (r: Result<DataFrame, UtahError>)
        requires
            self.wf(),
        ensures
            frame_result_is(
                r,
                assemble(
                    labels_of(self.remaining()),
                    cells_of(self.remaining()),
                    self.concat_other.deep_view(),
                    self.axis,
                ),
            ),
    {
        let other = copy_labels(&self.concat_other);
        let axis = self.axis;
        collect_frame(self, other, axis)
    }

    /// Drains both traversals into a bare matrix, laid out as `as_df` does.
    pub fn as_matrix(self) -> (r: Result<Matrix, UtahError>)
        requires
            self.wf(),
        ensures
            matrix_result_is(
                r,
                assemble_matrix(
                    cells_of(self.remaining()),
                    self.concat_other.len() as nat,
                    self.axis,
                ),
            ),
    {
        let width = self.concat_other.len();
        let axis = self.axis;
        collect_matrix(self, width, axis)
    }

    /// Drains both traversals into one flat vector.
    pub fn as_array(self) -> (r: Result<Vec<i64>, UtahError>)
        requires
            self.wf(),
        ensures
            r matches Ok(cells) && cells@ == cells_of(self.remaining()).flatten(),
    {
        Ok(collect_array(self))
    }
}

/// What a lookup of views holds, as cells.
pub open spec fn lookup_model<'a>(right: Map<Seq<char>, SliceView<'a>>) -> Map<
    Seq<char>,
    Seq<i64>,
> {
    right.map_values(|v: SliceView<'a>| v@)
}

/// Drains `right` into a lookup from label to view. Where a label occurs
/// more than once, the last window that carries it stays.
fn collect_lookup<'a, R: WindowStream<'a>>(right: R) -> (map: StringHashMap<SliceView<'a>>)
    requires
        right.wf(),
    ensures
        lookup_model(map@) == lookup_of(right.remaining()),
{
    let mut right = right;
    let ghost start = right.remaining();
    let ghost done = Seq::<WindowModel>::empty();
    let mut map: StringHashMap<SliceView<'a>> = StringHashMap::new();
    assert(lookup_model(map@) =~= lookup_of(done));
    assert(done + right.remaining() =~= start);
    loop
        invariant
            right.wf(),
            done + right.remaining() == start,
            lookup_model(map@) == lookup_of(done),
        ensures
            lookup_model(map@) == lookup_of(start),
        decreases right.remaining().len(),
    {
        let ghost before = right.remaining();
        let ghost held = map@;
        match right.next() {
            Some((label, cells)) => {
                map.insert(label, cells);
                proof {
                    let grown = done.push(before[0]);
                    assert(grown.drop_last() =~= done);
                    assert(lookup_model(map@) =~= lookup_model(held).insert(
                        before[0].0,
                        before[0].1,
                    ));
                    assert(grown + right.remaining() =~= done + before);
                    done = grown;
                }
            },
            None => {
                proof {
                    assert(done + right.remaining() =~= done);
                }
                break ;
            },
        }
    }
    map
}

/// `width` missing cells.
fn missing_cells(width: usize) -> (cells: Vec<i64>)
    ensures
        cells@ == fill(width as nat),
{
    let mut cells: Vec<i64> = Vec::new();
    let mut i: usize = 0;
    while i < width
        invariant
            i <= width,
            cells.len() == i,
            forall|k: int| 0 <= k < i ==> cells[k] == EMPTY,
        decreases width - i,
    {
        cells.push(EMPTY);
        i = i + 1;
    }
    assert(cells@ =~= fill(width as nat));
    cells
}

/// The labels of `left` followed by those of `right`.
fn joined_labels(left: &Vec<String>, right: &Vec<String>) -> (all: Vec<String>)
    ensures
        all.deep_view() == left.deep_view() + right.deep_view(),
{
    let mut all = copy_labels(left);
    let mut i: usize = 0;
    while i < right.len()
        invariant
            i <= right.len(),
            all.len() == left.len() + i,
            forall|k: int| 0 <= k < left.len() ==> (#[trigger] all[k])@ == left[k]@,
            forall|k: int|
                left.len() <= k < left.len() + i ==> (#[trigger] all[k])@ == right[k - left.len()]@,
        decreases right.len() - i,
    {
        all.push(right[i].clone());
        i = i + 1;
    }
    assert(all.deep_view() =~= left.deep_view() + right.deep_view());
    all
}

/// The pairs of an inner join: a label, the left view and the right view.
pub type Joined<'a> = (String, SliceView<'a>, SliceView<'a>);

/// What an optional pair of an inner join carries.
pub open spec fn joined_model(item: Option<Joined<'_>>) -> Option<JoinModel> {
    match item {
        Some(j) => Some((j.0@, j.1@, j.2@)),
        None => None,
    }
}

/// Pairs each left window with the right window of the same label, and
/// skips the left windows whose label the right side does not have.
pub struct InnerJoin<'a, L> {
    pub left: L,
    pub right: StringHashMap<SliceView<'a>>,
    pub left_columns: Vec<String>,
    pub right_columns: Vec<String>,
}

impl<'a, L: WindowStream<'a>> InnerJoin<'a, L> {
    /// The invariant of the join.
    pub open spec fn wf(&self) -> bool {
        self.left.wf()
    }

    /// The pairs that are still to be handed out, in order.
    pub open spec fn remaining(&self) -> Seq<JoinModel> {
        inner_join(self.left.remaining(), lookup_model(self.right@))
    }

    /// Joins `left` with `right`, which is drained at once into a lookup by
    /// label; the two vectors hold the column labels of either side.
    pub fn new<RI: WindowStream<'a>>(
        left: L,
        right: RI,
        left_columns: Vec<String>,
        right_columns: Vec<String>,
    ) -> (j: Self)
        requires
            right.wf(),
        ensures
            j.left == left,
            lookup_model(j.right@) == lookup_of(right.remaining()),
            j.left_columns == left_columns,
            j.right_columns == right_columns,
    {
        InnerJoin { left, right: collect_lookup(right), left_columns, right_columns }
    }

    /// Hands out the next pair, or `None` when no left window with a
    /// partner is left.
    pub fn next(&mut self) -> (item: Option<Joined<'a>>)
        requires
            old(self).wf(),
        ensures
            final(self).wf(),
            stepped(old(self).remaining(), joined_model(item), final(self).remaining()),
            final(self).right == old(self).right,
            final(self).left_columns == old(self).left_columns,
            final(self).right_columns == old(self).right_columns,
    {
        let ghost lookup = lookup_model(self.right@);
        loop
            invariant
                self.left.wf(),
                self.right == old(self).right,
                self.left_columns == old(self).left_columns,
                self.right_columns == old(self).right_columns,
                lookup == lookup_model(self.right@),
                inner_join(self.left.remaining(), lookup) == inner_join(
                    old(self).left.remaining(),
                    lookup,
                ),
            decreases self.left.remaining().len(),
        {
            let ghost before = self.left.remaining();
            match self.left.next() {
                Some((label, cells)) => {
                    proof {
                        lemma_inner_join_head(before, lookup);
                    }
                    match self.right.get(label.as_str()) {
                        Some(partner) => {
                            let partner: SliceView<'a> = partner.duplicate();
                            proof {
                                let first = (before[0].0, before[0].1, lookup[before[0].0]);
                                let rest = inner_join(before.skip(1), lookup);
                                assert((seq![first] + rest).skip(1) =~= rest);
                            }
                            return Some((label, cells, partner));
                        },
                        None => {
                            proof {
                                let rest = inner_join(before.skip(1), lookup);
                                assert(Seq::<JoinModel>::empty() + rest =~= rest);
                            }
                        },
                    }
                },
                None => {
                    proof {
                        lemma_inner_join_empty(before, lookup);
                    }
                    return None;
                },
            }
        }
    }

    /// Drains the join, copying each pair into one row: the left cells, then
    /// the right cells.
    pub fn collect_rows(&mut self) -> (rows: Vec<OwnedWindow>)
        requires
            old(self).wf(),
        ensures
            final(self).wf(),
            final(self).remaining().len() == 0,
            owned_model(rows@) == joined_rows(old(self).remaining()),
            final(self).left_columns == old(self).left_columns,
            final(self).right_columns == old(self).right_columns,
    {
        let ghost start = self.remaining();
        let mut rows: Vec<OwnedWindow> = Vec::new();
        assert(owned_model(rows@) + joined_rows(self.remaining()) =~= joined_rows(start));
        loop
            invariant
                self.wf(),
                start == old(self).remaining(),
                self.left_columns == old(self).left_columns,
                self.right_columns == old(self).right_columns,
                owned_model(rows@) + joined_rows(self.remaining()) == joined_rows(start),
            decreases self.remaining().len(),
        {
            let ghost before = self.remaining();
            let ghost done = rows@;
            match self.next() {
                Some((label, left, right)) => {
                    let mut row = left.to_vec();
                    let mut tail = right.to_vec();
                    row.append(&mut tail);
                    rows.push((label, row));
                    proof {
                        assert(owned_model(rows@) =~= owned_model(done).push(
                            joined_rows(before)[0],
                        ));
                        assert(joined_rows(before.skip(1)) =~= joined_rows(before).skip(1));
                        assert(owned_model(rows@) + joined_rows(self.remaining()) =~= owned_model(
                            done,
                        ) + joined_rows(before));
                    }
                },
                None => {
                    proof {
                        assert(owned_model(rows@) + joined_rows(self.remaining()) =~= owned_model(
                            rows@,
                        ));
                    }
                    return rows;
                },
            }
        }
    }

    /// Drains the join into a frame: one row for each pair, under the left
    /// column labels followed by the right ones.
    pub fn as_df(self) -> (r: Result<DataFrame, UtahError>)
        requires
            self.wf(),
        ensures
            frame_result_is(
                r,
                assemble(
                    labels_of(joined_rows(self.remaining())),
                    cells_of(joined_rows(self.remaining())),
                    self.left_columns.deep_view() + self.right_columns.deep_view(),
                    UtahAxis::Row,
                ),
            ),
    {
        let mut join = self;
        let rows = join.collect_rows();
        let columns = joined_labels(&join.left_columns, &join.right_columns);
        frame_from_windows(&rows, columns, UtahAxis::Row)
    }

    /// Drains the join into a bare matrix: one row for each pair.
    pub fn as_matrix(self) -> (r: Result<Matrix, UtahError>)
        requires
            self.wf(),
        ensures
            matrix_result_is(
                r,
                assemble_matrix(
                    cells_of(joined_rows(self.remaining())),
                    (self.left_columns.len() + self.right_columns.len()) as nat,
                    UtahAxis::Row,
                ),
            ),
    {
        let mut join = self;
        let rows = join.collect_rows();
        match join.left_columns.len().checked_add(join.right_columns.len()) {
            Some(width) => matrix_from_windows(&rows, width, UtahAxis::Row),
            None => {
                proof {
                    lemma_wide_not_storable(
                        rows@.len(),
                        (join.left_columns.len() + join.right_columns.len()) as nat,
                    );
                }
                Err(UtahError::ShapeMismatch)
            },
        }
    }

    /// Drains the join into one flat vector: the rows, one after the other.
    pub fn as_array(self) -> (r: Result<Vec<i64>, UtahError>)
        requires
            self.wf(),
        ensures
            r matches Ok(cells) && cells@ == cells_of(joined_rows(self.remaining())).flatten(),
    {
        let mut join = self;
        let rows = join.collect_rows();
        Ok(array_from_windows(&rows))
    }
}

/// The items of an outer join: a label, the left view, and the right view
/// where the right side has the label.
pub type OuterJoined<'a> = (String, SliceView<'a>, Option<SliceView<'a>>);

/// What an optional view carries.
pub open spec fn partner_model(partner: Option<SliceView<'_>>) -> Option<Seq<i64>> {
    match partner {
        Some(v) => Some(v@),
        None => None,
    }
}

/// What an optional item of an outer join carries.
pub open spec fn outer_joined_model(item: Option<OuterJoined<'_>>) -> Option<OuterModel> {
    match item {
        Some(j) => Some((j.0@, j.1@, partner_model(j.2))),
        None => None,
    }
}

/// Hands out every left window once, with the right window of the same
/// label where there is one.
pub struct OuterJoin<'a, L> {
    pub left: L,
    pub right: StringHashMap<SliceView<'a>>,
    pub left_columns: Vec<String>,
    pub right_columns: Vec<String>,
}

impl<'a, L: WindowStream<'a>> OuterJoin<'a, L> {
    /// The invariant of the join.
    pub open spec fn wf(&self) -> bool {
        self.left.wf()
    }

    /// The items that are still to be handed out, in order.
    pub open spec fn remaining(&self) -> Seq<OuterModel> {
        outer_join(self.left.remaining(), lookup_model(self.right@))
    }

    /// Joins `left` with `right`, which is drained at once into a lookup by
    /// label; the two vectors hold the column labels of either side.
    pub fn new<RI: WindowStream<'a>>(
        left: L,
        right: RI,
        left_columns: Vec<String>,
        right_columns: Vec<String>,
    ) -> (j: Self)
        requires
            right.wf(),
        ensures
            j.left == left,
            lookup_model(j.right@) == lookup_of(right.remaining()),
            j.left_columns == left_columns,
            j.right_columns == right_columns,
    {
        OuterJoin { left, right: collect_lookup(right), left_columns, right_columns }
    }

    /// Hands out the next item, or `None` when no left window is left.
    pub fn next(&mut self) -> (item: Option<OuterJoined<'a>>)
        requires
            old(self).wf(),
        ensures
            final(self).wf(),
            stepped(old(self).remaining(), outer_joined_model(item), final(self).remaining()),
            final(self).right == old(self).right,
            final(self).left_columns == old(self).left_columns,
            final(self).right_columns == old(self).right_columns,
    {
        let ghost lookup = lookup_model(self.right@);
        let ghost before = self.left.remaining();
        match self.left.next() {
            Some((label, cells)) => {
                proof {
                    assert(outer_join(before.skip(1), lookup) =~= outer_join(before, lookup).skip(
                        1,
                    ));
                }
                match self.right.get(label.as_str()) {
                    Some(partner) => {
                        let partner: SliceView<'a> = partner.duplicate();
                        Some((label, cells, Some(partner)))
                    },
                    None => Some((label, cells, None)),
                }
            },
            None => None,
        }
    }

    /// Drains the join, copying each item into one row: the left cells, then
    /// the right cells, or as many missing cells as there are right column
    /// labels where the label has no partner.
    pub fn collect_rows(&mut self) -> (rows: Vec<OwnedWindow>)
        requires
            old(self).wf(),
        ensures
            final(self).wf(),
            final(self).remaining().len() == 0,
            owned_model(rows@) == filled_rows(
                old(self).remaining(),
                old(self).right_columns.len() as nat,
            ),
            final(self).left_columns == old(self).left_columns,
            final(self).right_columns == old(self).right_columns,
    {
        let ghost start = self.remaining();
        let ghost width = self.right_columns.len() as nat;
        let mut rows: Vec<OwnedWindow> = Vec::new();
        assert(owned_model(rows@) + filled_rows(self.remaining(), width) =~= filled_rows(
            start,
            width,
        ));
        loop
            invariant
                self.wf(),
                start == old(self).remaining(),
                width == old(self).right_columns.len(),
                self.left_columns == old(self).left_columns,
                self.right_columns == old(self).right_columns,
                owned_model(rows@) + filled_rows(self.remaining(), width) == filled_rows(
                    start,
                    width,
                ),
            decreases self.remaining().len(),
        {
            let ghost before = self.remaining();
            let ghost done = rows@;
            match self.next() {
                Some((label, left, right)) => {
                    let mut row = left.to_vec();
                    let mut tail = match right {
                        Some(cells) => cells.to_vec(),
                        None => missing_cells(self.right_columns.len()),
                    };
                    row.append(&mut tail);
                    rows.push((label, row));
                    proof {
                        assert(owned_model(rows@) =~= owned_model(done).push(
                            filled_rows(before, width)[0],
                        ));
                        assert(filled_rows(before.skip(1), width) =~= filled_rows(
                            before,
                            width,
                        ).skip(1));
                        assert(owned_model(rows@) + filled_rows(self.remaining(), width)
                            =~= owned_model(done) + filled_rows(before, width));
                    }
                },
                None => {
                    proof {
                        assert(owned_model(rows@) + filled_rows(self.remaining(), width)
                            =~= owned_model(rows@));
                    }
                    return rows;
                },
            }
        }
    }

    /// Drains the join into a frame: one row for each left window, under the
    /// left column labels followed by the right ones.
    pub fn as_df(self) -> (r: Result<DataFrame, UtahError>)
        requires
            self.wf(),
        ensures
            frame_result_is(
                r,
                assemble(
                    labels_of(filled_rows(self.remaining(), self.right_columns.len() as nat)),
                    cells_of(filled_rows(self.remaining(), self.right_columns.len() as nat)),
                    self.left_columns.deep_view() + self.right_columns.deep_view(),
                    UtahAxis::Row,
                ),
            ),
    {
        let mut join = self;
        let rows = join.collect_rows();
        let columns = joined_labels(&join.left_columns, &join.right_columns);
        frame_from_windows(&rows, columns, UtahAxis::Row)
    }

    /// Drains the join into a bare matrix: one row for each left window.
    pub fn as_matrix(self) -> (r: Result<Matrix, UtahError>)
        requires
            self.wf(),
        ensures
            matrix_result_is(
                r,
                assemble_matrix(
                    cells_of(filled_rows(self.remaining(), self.right_columns.len() as nat)),
                    (self.left_columns.len() + self.right_columns.len()) as nat,
                    UtahAxis::Row,
                ),
            ),
    {
        let mut join = self;
        let rows = join.collect_rows();
        match join.left_columns.len().checked_add(join.right_columns.len()) {
            Some(width) => matrix_from_windows(&rows, width, UtahAxis::Row),
            None => {
                proof {
                    lemma_wide_not_storable(
                        rows@.len(),
                        (join.left_columns.len() + join.right_columns.len()) as nat,
                    );
                }
                Err(UtahError::ShapeMismatch)
            },
        }
    }

    /// Drains the join into one flat vector: the rows, one after the other.
    pub fn as_array(self) -> (r: Result<Vec<i64>, UtahError>)
        requires
            self.wf(),
        ensures
            r matches Ok(cells) && cells@ == cells_of(
                filled_rows(self.remaining(), self.right_columns.len() as nat),
            ).flatten(),
    {
        let mut join = self;
        let rows = join.collect_rows();
        Ok(array_from_windows(&rows))
    }
}

} // verus!
