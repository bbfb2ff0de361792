//! Combinators that reduce each window to one scalar.

use vstd::prelude::*;
use crate::dataframe::{frame_result_is, DataFrame};
use crate::materialize::{
    array_from_windows,
    frame_from_windows,
    matrix_from_windows,
    matrix_result_is,
    owned_model,
    OwnedWindow,
};
use crate::matrix::Matrix;
use crate::model::{
    assemble,
    assemble_matrix,
    cells_of,
    labels_of,
    stepped,
    FrameModel,
    WindowModel,
};
use crate::reduce::{reduce, reduce_cells, Reduction};
use crate::util::error::UtahError;
use crate::util::traits::WindowStream;
use crate::util::types::UtahAxis;

verus! {

/// What an aggregation hands out: the label of a window, and the scalar that
/// the window reduces to or the reason why it has none.
pub type Reduced = (String, Result<i64, UtahError>);

/// What an item of an aggregation carries.
pub type ReducedModel = (Seq<char>, Result<i64, UtahError>);

/// What an optional item of an aggregation carries.
pub open spec fn reduced_model(item: Option<Reduced>) -> Option<ReducedModel> {
    match item {
        Some(it) => Some((it.0@, it.1)),
        None => None,
    }
}

/// Each window reduced to one scalar, in the order of the windows.
pub open spec fn reduced(windows: Seq<WindowModel>, kind: Reduction) -> Seq<ReducedModel> {
    windows.map_values(|w: WindowModel| (w.0, reduce(kind, w.1)))
}

/// The one-cell windows that the items of an aggregation materialize to, or
/// the error of the first item that has no scalar.
pub open spec fn scalars_of(items: Seq<ReducedModel>) -> Result<Seq<WindowModel>, UtahError>
    decreases items.len(),
{
    if items.len() == 0 {
        Ok(Seq::empty())
    } else {
        match scalars_of(items.drop_last()) {
            Err(e) => Err(e),
            Ok(init) => match items.last().1 {
                Err(e) => Err(e),
                Ok(x) => Ok(init.push((items.last().0, seq![x]))),
            },
        }
    }
}

/// The frame that the items of an aggregation materialize to: one lane of
/// one cell for each item, `other` being the label of the only lane across.
pub open spec fn reduced_frame(items: Seq<ReducedModel>, other: Seq<Seq<char>>, axis: UtahAxis)
    -> Result<FrameModel, UtahError> {
    match scalars_of(items) {
        Err(e) => Err(e),
        Ok(ws) => assemble(labels_of(ws), cells_of(ws), other, axis),
    }
}

/// The bare matrix that the items of an aggregation materialize to.
pub open spec fn reduced_matrix(items: Seq<ReducedModel>, width: nat, axis: UtahAxis) -> Result<
    (Seq<Seq<i64>>, nat),
    UtahError,
> {
    match scalars_of(items) {
        Err(e) => Err(e),
        Ok(ws) => assemble_matrix(cells_of(ws), width, axis),
    }
}

/// The flat vector that the items of an aggregation materialize to: their
/// scalars, in order.
pub open spec fn reduced_array(items: Seq<ReducedModel>) -> Result<Seq<i64>, UtahError> {
    match scalars_of(items) {
        Err(e) => Err(e),
        Ok(ws) => Ok(cells_of(ws).flatten()),
    }
}

/// Once an item has failed, what follows does not matter.
pub proof fn lemma_scalars_failed(items: Seq<ReducedModel>, more: Seq<ReducedModel>)
    requires
        scalars_of(items) is Err,
    ensures
        scalars_of(items + more) == scalars_of(items),
    decreases more.len(),
{
    if more.len() == 0 {
        assert(items + more =~= items);
    } else {
        assert((items + more).drop_last() =~= items + more.drop_last());
        lemma_scalars_failed(items, more.drop_last());
    }
}

/// Pulls the next window from `data` and reduces it.
fn next_reduced<'a, I: WindowStream<'a>>(data: &mut I, kind: Reduction) -> (item: Option<Reduced>)
    requires
        old(data).wf(),
    ensures
        final(data).wf(),
        stepped(
            reduced(old(data).remaining(), kind),
            reduced_model(item),
            reduced(final(data).remaining(), kind),
        ),
{
    let ghost before = data.remaining();
    match data.next() {
        Some((label, cells)) => {
            proof {
                assert(reduced(before.skip(1), kind) =~= reduced(before, kind).skip(1));
            }
            Some((label, reduce_cells(kind, &cells)))
        },
        None => None,
    }
}

/// Drains `data`, reducing each window, up to the first window that has no
/// scalar.
fn collect_reduced<'a, I: WindowStream<'a>>(data: &mut I, kind: Reduction) -> (r: Result<
    Vec<OwnedWindow>,
    UtahError,
>)
    requires
        old(data).wf(),
    ensures
        final(data).wf(),
        match r {
            Ok(rows) => scalars_of(reduced(old(data).remaining(), kind)) == Ok::<
                Seq<WindowModel>,
                UtahError,
            >(owned_model(rows@)),
            Err(e) => scalars_of(reduced(old(data).remaining(), kind)) == Err::<
                Seq<WindowModel>,
                UtahError,
            >(e),
        },
{
    let ghost start = reduced(data.remaining(), kind);
    let ghost done = Seq::<ReducedModel>::empty();
    let mut rows: Vec<OwnedWindow> = Vec::new();
    assert(done + reduced(data.remaining(), kind) =~= start);
    assert(owned_model(rows@) =~= Seq::<WindowModel>::empty());
    loop
        invariant
            data.wf(),
            start == reduced(old(data).remaining(), kind),
            done + reduced(data.remaining(), kind) == start,
            scalars_of(done) == Ok::<Seq<WindowModel>, UtahError>(owned_model(rows@)),
        decreases data.remaining().len(),
    {
        let ghost before = reduced(data.remaining(), kind);
        let ghost held = rows@;
        match next_reduced(data, kind) {
            Some((label, scalar)) => {
                proof {
                    let grown = done.push(before[0]);
                    assert(grown.drop_last() =~= done);
                    assert(grown + reduced(data.remaining(), kind) =~= done + before);
                    if scalar is Err {
                        lemma_scalars_failed(grown, reduced(data.remaining(), kind));
                    }
                    done = grown;
                }
                match scalar {
                    Ok(x) => {
                        let mut lane: Vec<i64> = Vec::new();
                        lane.push(x);
                        rows.push((label, lane));
                        proof {
                            assert(lane@ =~= seq![x]);
                            assert(owned_model(rows@) =~= owned_model(held).push(
                                (before[0].0, seq![x]),
                            ));
                        }
                    },
                    Err(e) => {
                        return Err(e);
                    },
                }
            },
            None => {
                proof {
                    assert(done + reduced(data.remaining(), kind) =~= done);
                }
                return Ok(rows);
            },
        }
    }
}

/// Reduces each window of a traversal to the total of its cells.
pub struct Sum<I> {
    pub data: I,
    pub other: Vec<String>,
    pub axis: UtahAxis,
}

impl<I> Sum<I> {
    /// Aggregates the windows of `df`, a traversal along `axis`; `other`
    /// holds the label of the one lane that the result has across `axis`.
    pub fn new(df: I, other: Vec<String>, axis: UtahAxis) -> (s: Sum<I>)
        ensures
            s.data == df,
            s.other == other,
            s.axis == axis,
    {
        Sum { data: df, other, axis }
    }
}

impl<'a, I: WindowStream<'a>> Sum<I> {
    /// The invariant of the aggregation.
    pub open spec fn wf(&self) -> bool {
        self.data.wf()
    }

    /// The items that are still to be handed out, in order.
    pub open spec fn remaining(&self) -> Seq<ReducedModel> {
        reduced(self.data.remaining(), Reduction::Sum)
    }

    /// Hands out the label of the next window with the total of its cells, or
    /// `None` when no window is left.
    pub fn next(&mut self) -> (item: Option<Reduced>)
        requires
            old(self).wf(),
        ensures
            final(self).wf(),
            stepped(old(self).remaining(), reduced_model(item), final(self).remaining()),
            final(self).other == old(self).other,
            final(self).axis == old(self).axis,
    {
        next_reduced(&mut self.data, Reduction::Sum)
    }

    /// Drains the aggregation into a frame with one lane across `axis`, or
    /// fails as the first window that has no scalar does.
    pub fn as_df(self) -> (r: Result<DataFrame, UtahError>)
        requires
            self.wf(),
        ensures
            frame_result_is(
                r,
                reduced_frame(self.remaining(), self.other.deep_view(), self.axis),
            ),
    {
        let mut this = self;
        let rows = collect_reduced(&mut this.data, Reduction::Sum)?;
        frame_from_windows(&rows, this.other, this.axis)
    }

    /// Drains the aggregation into a bare matrix with one lane across
    /// `axis`, or fails as the first window that has no scalar does.
    pub fn as_matrix(self) -> (r: Result<Matrix, UtahError>)
        requires
            self.wf(),
        ensures
            matrix_result_is(
                r,
                reduced_matrix(self.remaining(), self.other.len() as nat, self.axis),
            ),
    {
        let mut this = self;
        let rows = collect_reduced(&mut this.data, Reduction::Sum)?;
        matrix_from_windows(&rows, this.other.len(), this.axis)
    }

    /// Drains the aggregation into the vector of its scalars, or fails as
    /// the first window that has no scalar does.
    pub fn as_array(self) -> (r: Result<Vec<i64>, UtahError>)
        requires
            self.wf(),
        ensures
            match r {
                Ok(cells) => reduced_array(self.remaining()) == Ok::<Seq<i64>, UtahError>(cells@),
                Err(e) => reduced_array(self.remaining()) == Err::<Seq<i64>, UtahError>(e),
            },
    {
        let mut this = self;
        let rows = collect_reduced(&mut this.data, Reduction::Sum)?;
        Ok(array_from_windows(&rows))
    }
}

/// Reduces each window of a traversal to the mean of its cells.
pub struct Mean<I> {
    pub data: I,
    pub other: Vec<String>,
    pub axis: UtahAxis,
}

impl<I> Mean<I> {
    /// Aggregates the windows of `df`, a traversal along `axis`; `other`
    /// holds the label of the one lane that the result has across `axis`.
    pub fn new(df: I, other: Vec<String>, axis: UtahAxis) -> (s: Mean<I>)
        ensures
            s.data == df,
            s.other == other,
            s.axis == axis,
    {
        Mean { data: df, other, axis }
    }
}

impl<'a, I: WindowStream<'a>> Mean<I> {
    /// The invariant of the aggregation.
    pub open spec fn wf(&self) -> bool {
        self.data.wf()
    }

    /// The items that are still to be handed out, in order.
    pub open spec fn remaining(&self) -> Seq<ReducedModel> {
        reduced(self.data.remaining(), Reduction::Mean)
    }

    /// Hands out the label of the next window with the mean of its cells, or
    /// `None` when no window is left.
    pub fn next(&mut self) -> (item: Option<Reduced>)
        requires
            old(self).wf(),
        ensures
            final(self).wf(),
            stepped(old(self).remaining(), reduced_model(item), final(self).remaining()),
            final(self).other == old(self).other,
            final(self).axis == old(self).axis,
    {
        next_reduced(&mut self.data, Reduction::Mean)
    }

    /// Drains the aggregation into a frame with one lane across `axis`, or
    /// fails as the first window that has no scalar does.
    pub fn as_df(self) -> (r: Result<DataFrame, UtahError>)
        requires
            self.wf(),
        ensures
            frame_result_is(
                r,
                reduced_frame(self.remaining(), self.other.deep_view(), self.axis),
            ),
    {
        let mut this = self;
        let rows = collect_reduced(&mut this.data, Reduction::Mean)?;
        frame_from_windows(&rows, this.other, this.axis)
    }

    /// Drains the aggregation into a bare matrix with one lane across
    /// `axis`, or fails as the first window that has no scalar does.
    pub fn as_matrix(self) -> (r: Result<Matrix, UtahError>)
        requires
            self.wf(),
        ensures
            matrix_result_is(
                r,
                reduced_matrix(self.remaining(), self.other.len() as nat, self.axis),
            ),
    {
        let mut this = self;
        let rows = collect_reduced(&mut this.data, Reduction::Mean)?;
        matrix_from_windows(&rows, this.other.len(), this.axis)
    }

    /// Drains the aggregation into the vector of its scalars, or fails as
    /// the first window that has no scalar does.
    pub fn as_array(self) -> (r: Result<Vec<i64>, UtahError>)
        requires
            self.wf(),
        ensures
            match r {
                Ok(cells) => reduced_array(self.remaining()) == Ok::<Seq<i64>, UtahError>(cells@),
                Err(e) => reduced_array(self.remaining()) == Err::<Seq<i64>, UtahError>(e),
            },
    {
        let mut this = self;
        let rows = collect_reduced(&mut this.data, Reduction::Mean)?;
        Ok(array_from_windows(&rows))
    }
}

/// Reduces each window of a traversal to the greatest of its cells.
pub struct Max<I> {
    pub data: I,
    pub other: Vec<String>,
    pub axis: UtahAxis,
}

impl<I> Max<I> {
    /// Aggregates the windows of `df`, a traversal along `axis`; `other`
    /// holds the label of the one lane that the result has across `axis`.
    pub fn new(df: I, other: Vec<String>, axis: UtahAxis) -> (s: Max<I>)
        ensures
            s.data == df,
            s.other == other,
            s.axis == axis,
    {
        Max { data: df, other, axis }
    }
}

impl<'a, I: WindowStream<'a>> Max<I> {
    /// The invariant of the aggregation.
    pub open spec fn wf(&self) -> bool {
        self.data.wf()
    }

    /// The items that are still to be handed out, in order.
    pub open spec fn remaining(&self) -> Seq<ReducedModel> {
        reduced(self.data.remaining(), Reduction::Max)
    }

    /// Hands out the label of the next window with the greatest of its cells, or
    /// `None` when no window is left.
    pub fn next(&mut self) -> (item: Option<Reduced>)
        requires
            old(self).wf(),
        ensures
            final(self).wf(),
            stepped(old(self).remaining(), reduced_model(item), final(self).remaining()),
            final(self).other == old(self).other,
            final(self).axis == old(self).axis,
    {
        next_reduced(&mut self.data, Reduction::Max)
    }

    /// Drains the aggregation into a frame with one lane across `axis`, or
    /// fails as the first window that has no scalar does.
    pub fn as_df(self) -> (r: Result<DataFrame, UtahError>)
        requires
            self.wf(),
        ensures
            frame_result_is(
                r,
                reduced_frame(self.remaining(), self.other.deep_view(), self.axis),
            ),
    {
        let mut this = self;
        let rows = collect_reduced(&mut this.data, Reduction::Max)?;
        frame_from_windows(&rows, this.other, this.axis)
    }

    /// Drains the aggregation into a bare matrix with one lane across
    /// `axis`, or fails as the first window that has no scalar does.
    pub fn as_matrix(self) -> (r: Result<Matrix, UtahError>)
        requires
            self.wf(),
        ensures
            matrix_result_is(
                r,
                reduced_matrix(self.remaining(), self.other.len() as nat, self.axis),
            ),
    {
        let mut this = self;
        let rows = collect_reduced(&mut this.data, Reduction::Max)?;
        matrix_from_windows(&rows, this.other.len(), this.axis)
    }

    /// Drains the aggregation into the vector of its scalars, or fails as
    /// the first window that has no scalar does.
    pub fn as_array(self) -> (r: Result<Vec<i64>, UtahError>)
        requires
            self.wf(),
        ensures
            match r {
                Ok(cells) => reduced_array(self.remaining()) == Ok::<Seq<i64>, UtahError>(cells@),
                Err(e) => reduced_array(self.remaining()) == Err::<Seq<i64>, UtahError>(e),
            },
    {
        let mut this = self;
        let rows = collect_reduced(&mut this.data, Reduction::Max)?;
        Ok(array_from_windows(&rows))
    }
}

/// Reduces each window of a traversal to the least of its cells.
pub struct Min<I> {
    pub data: I,
    pub other: Vec<String>,
    pub axis: UtahAxis,
}

impl<I> Min<I> {
    /// Aggregates the windows of `df`, a traversal along `axis`; `other`
    /// holds the label of the one lane that the result has across `axis`.
    pub fn new(df: I, other: Vec<String>, axis: UtahAxis) -> (s: Min<I>)
        ensures
            s.data == df,
            s.other == other,
            s.axis == axis,
    {
        Min { data: df, other, axis }
    }
}

impl<'a, I: WindowStream<'a>> Min<I> {
    /// The invariant of the aggregation.
    pub open spec fn wf(&self) -> bool {
        self.data.wf()
    }

    /// The items that are still to be handed out, in order.
    pub open spec fn remaining(&self) -> Seq<ReducedModel> {
        reduced(self.data.remaining(), Reduction::Min)
    }

    /// Hands out the label of the next window with the least of its cells, or
    /// `None` when no window is left.
    pub fn next(&mut self) -> (item: Option<Reduced>)
        requires
            old(self).wf(),
        ensures
            final(self).wf(),
            stepped(old(self).remaining(), reduced_model(item), final(self).remaining()),
            final(self).other == old(self).other,
            final(self).axis == old(self).axis,
    {
        next_reduced(&mut self.data, Reduction::Min)
    }

    /// Drains the aggregation into a frame with one lane across `axis`, or
    /// fails as the first window that has no scalar does.
    pub fn as_df(self) -> (r: Result<DataFrame, UtahError>)
        requires
            self.wf(),
        ensures
            frame_result_is(
                r,
                reduced_frame(self.remaining(), self.other.deep_view(), self.axis),
            ),
    {
        let mut this = self;
        let rows = collect_reduced(&mut this.data, Reduction::Min)?;
        frame_from_windows(&rows, this.other, this.axis)
    }

    /// Drains the aggregation into a bare matrix with one lane across
    /// `axis`, or fails as the first window that has no scalar does.
    pub fn as_matrix(self) -> (r: Result<Matrix, UtahError>)
        requires
            self.wf(),
        ensures
            matrix_result_is(
                r,
                reduced_matrix(self.remaining(), self.other.len() as nat, self.axis),
            ),
    {
        let mut this = self;
        let rows = collect_reduced(&mut this.data, Reduction::Min)?;
        matrix_from_windows(&rows, this.other.len(), this.axis)
    }

    /// Drains the aggregation into the vector of its scalars, or fails as
    /// the first window that has no scalar does.
    pub fn as_array(self) -> (r: Result<Vec<i64>, UtahError>)
        requires
            self.wf(),
        ensures
            match r {
                Ok(cells) => reduced_array(self.remaining()) == Ok::<Seq<i64>, UtahError>(cells@),
                Err(e) => reduced_array(self.remaining()) == Err::<Seq<i64>, UtahError>(e),
            },
    {
        let mut this = self;
        let rows = collect_reduced(&mut this.data, Reduction::Min)?;
        Ok(array_from_windows(&rows))
    }
}

/// Reduces each window of a traversal to the standard deviation of its cells.
pub struct Stdev<I> {
    pub data: I,
    pub other: Vec<String>,
    pub axis: UtahAxis,
}

impl<I> Stdev<I> {
    /// Aggregates the windows of `df`, a traversal along `axis`; `other`
    /// holds the label of the one lane that the result has across `axis`.
    pub fn new(df: I, other: Vec<String>, axis: UtahAxis) -> (s: Stdev<I>)
        ensures
            s.data == df,
            s.other == other,
            s.axis == axis,
    {
        Stdev { data: df, other, axis }
    }
}

impl<'a, I: WindowStream<'a>> Stdev<I> {
    /// The invariant of the aggregation.
    pub open spec fn wf(&self) -> bool {
        self.data.wf()
    }

    /// The items that are still to be handed out, in order.
    pub open spec fn remaining(&self) -> Seq<ReducedModel> {
        reduced(self.data.remaining(), Reduction::Stdev)
    }

    /// Hands out the label of the next window with the standard deviation of its cells, or
    /// `None` when no window is left.
    pub fn next(&mut self) -> (item: Option<Reduced>)
        requires
            old(self).wf(),
        ensures
            final(self).wf(),
            stepped(old(self).remaining(), reduced_model(item), final(self).remaining()),
            final(self).other == old(self).other,
            final(self).axis == old(self).axis,
    {
        next_reduced(&mut self.data, Reduction::Stdev)
    }

    /// Drains the aggregation into a frame with one lane across `axis`, or
    /// fails as the first window that has no scalar does.
    pub fn as_df(self) -> (r: Result<DataFrame, UtahError>)
        requires
            self.wf(),
        ensures
            frame_result_is(
                r,
                reduced_frame(self.remaining(), self.other.deep_view(), self.axis),
            ),
    {
        let mut this = self;
        let rows = collect_reduced(&mut this.data, Reduction::Stdev)?;
        frame_from_windows(&rows, this.other, this.axis)
    }

    /// Drains the aggregation into a bare matrix with one lane across
    /// `axis`, or fails as the first window that has no scalar does.
    pub fn as_matrix(self) -> (r: Result<Matrix, UtahError>)
        requires
            self.wf(),
        ensures
            matrix_result_is(
                r,
                reduced_matrix(self.remaining(), self.other.len() as nat, self.axis),
            ),
    {
        let mut this = self;
        let rows = collect_reduced(&mut this.data, Reduction::Stdev)?;
        matrix_from_windows(&rows, this.other.len(), this.axis)
    }

    /// Drains the aggregation into the vector of its scalars, or fails as
    /// the first window that has no scalar does.
    pub fn as_array(self) -> (r: Result<Vec<i64>, UtahError>)
        requires
            self.wf(),
        ensures
            match r {
                Ok(cells) => reduced_array(self.remaining()) == Ok::<Seq<i64>, UtahError>(cells@),
                Err(e) => reduced_array(self.remaining()) == Err::<Seq<i64>, UtahError>(e),
            },
    {
        let mut this = self;
        let rows = collect_reduced(&mut this.data, Reduction::Stdev)?;
        Ok(array_from_windows(&rows))
    }
}

} // verus!
