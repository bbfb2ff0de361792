//! The operations of a dataframe: each starts a traversal of the frame and
//! wraps it in a combinator. Nothing is computed before the combinator is
//! pulled from or drained.

use vstd::prelude::*;
use crate::combinators::aggregate::{reduced, Max, Mean, Min, Stdev, Sum};
use crate::combinators::interact::{Chain, Concat, InnerJoin, OuterJoin};
use crate::combinators::process::{Append, Remove, Select};
use crate::combinators::transform::{accepts, Impute, MapDF};
use crate::dataframe::{DataFrame, DataFrameIterator};
use crate::matrix::SliceView;
use crate::model::{inner_join, lookup_of, outer_join, remove_windows, select_windows};
use crate::reduce::Reduction;
use crate::util::labels::{copy_labels, default_labels, make_default_labels, owned_labels};
use crate::util::traits::WindowStream;
use crate::util::types::{ImputeStrategy, UtahAxis};

verus! {

/// The traversal of a frame.
pub type DFIter<'a> = DataFrameIterator<'a>;

/// A selection of the windows of a frame.
pub type SelectIter<'a> = Select<DFIter<'a>>;

/// The windows of a frame without some.
pub type RemoveIter<'a> = Remove<DFIter<'a>>;

/// The windows of a frame and one more.
pub type AppendIter<'a> = Append<'a, DFIter<'a>>;

/// The inner join of two frames.
pub type InnerJoinIter<'a> = InnerJoin<'a, DFIter<'a>>;

/// The outer join of two frames.
pub type OuterJoinIter<'a> = OuterJoin<'a, DFIter<'a>>;

/// The windows of two frames, one after the other.
pub type ConcatIter<'a> = Concat<Chain<DFIter<'a>, DFIter<'a>>>;

/// The sums of the windows of a frame.
pub type SumIter<'a> = Sum<DFIter<'a>>;

/// The means of the windows of a frame.
pub type MeanIter<'a> = Mean<DFIter<'a>>;

/// The greatest cells of the windows of a frame.
pub type MaxIter<'a> = Max<DFIter<'a>>;

/// The least cells of the windows of a frame.
pub type MinIter<'a> = Min<DFIter<'a>>;

/// The standard deviations of the windows of a frame.
pub type StdevIter<'a> = Stdev<DFIter<'a>>;

/// A function mapped over the windows of a frame.
pub type MapDFIter<'a, F> = MapDF<'a, F>;

/// The imputation of the windows of a frame.
pub type ImputeIter<'a> = Impute<'a>;

/// What a slice of texts reads as.
pub open spec fn texts_model(texts: Seq<&str>) -> Seq<Seq<char>> {
    texts.map_values(|t: &str| t@)
}

impl DataFrame {
    /// Selects the rows or the columns labelled by one of `names`.
    pub fn select<'a>(&'a self, names: &[&str], axis: UtahAxis) -> (s: SelectIter<'a>)
        requires
            self.wf(),
        ensures
            s.wf(),
            s.remaining() == select_windows(self@.windows(axis), texts_model(names@)),
            s.other.deep_view() == self@.other(axis),
            s.axis == axis,
    {
        let names = owned_labels(names);
        Select::new(self.df_iter(axis), names, self.other_labels(axis), axis)
    }

    /// Removes the rows or the columns labelled by one of `names`.
    pub fn remove<'a>(&'a self, names: &[&str], axis: UtahAxis) -> (s: RemoveIter<'a>)
        requires
            self.wf(),
        ensures
            s.wf(),
            s.remaining() == remove_windows(self@.windows(axis), texts_model(names@)),
            s.other.deep_view() == self@.other(axis),
            s.axis == axis,
    {
        let names = owned_labels(names);
        Remove::new(self.df_iter(axis), names, self.other_labels(axis), axis)
    }

    /// Appends to the rows or the columns one more, labelled `name`, that
    /// shows `data`.
    pub fn append<'a>(&'a self, name: &str, data: SliceView<'a>, axis: UtahAxis) -> (s: AppendIter<
        'a,
    >)
        requires
            self.wf(),
        ensures
            s.wf(),
            s.remaining() == self@.windows(axis).push((name@, data@)),
            s.other.deep_view() == self@.other(axis),
            s.axis == axis,
    {
        Append::new(
            self.df_iter(axis),
            name.to_owned(),
            data,
            self.other_labels(axis),
            axis,
        )
    }

    /// Joins the rows of this frame with the rows of `other` that carry the
    /// same label, and drops the rows without a partner.
    pub fn inner_left_join<'a>(&'a self, other: &'a DataFrame) -> (j: InnerJoinIter<'a>)
        requires
            self.wf(),
            other.wf(),
        ensures
            j.wf(),
            j.remaining() == inner_join(
                self@.windows(UtahAxis::Row),
                lookup_of(other@.windows(UtahAxis::Row)),
            ),
            j.left_columns.deep_view() == self@.columns,
            j.right_columns.deep_view() == other@.columns,
    {
        InnerJoin::new(
            self.df_iter(UtahAxis::Row),
            other.df_iter(UtahAxis::Row),
            copy_labels(self.column_labels()),
            copy_labels(other.column_labels()),
        )
    }

    /// Joins each row of this frame with the row of `other` that carries the
    /// same label, if there is one.
    pub fn outer_left_join<'a>(&'a self, other: &'a DataFrame) -> (j: OuterJoinIter<'a>)
        requires
            self.wf(),
            other.wf(),
        ensures
            j.wf(),
            j.remaining() == outer_join(
                self@.windows(UtahAxis::Row),
                lookup_of(other@.windows(UtahAxis::Row)),
            ),
            j.left_columns.deep_view() == self@.columns,
            j.right_columns.deep_view() == other@.columns,
    {
        OuterJoin::new(
            self.df_iter(UtahAxis::Row),
            other.df_iter(UtahAxis::Row),
            copy_labels(self.column_labels()),
            copy_labels(other.column_labels()),
        )
    }

    /// Joins the rows of `other` with the rows of this frame that carry the
    /// same label, and drops the rows without a partner.
    pub fn inner_right_join<'a>(&'a self, other: &'a DataFrame) -> (j: InnerJoinIter<'a>)
        requires
            self.wf(),
            other.wf(),
        ensures
            j.wf(),
            j.remaining() == inner_join(
                other@.windows(UtahAxis::Row),
                lookup_of(self@.windows(UtahAxis::Row)),
            ),
            j.left_columns.deep_view() == other@.columns,
            j.right_columns.deep_view() == self@.columns,
    {
        InnerJoin::new(
            other.df_iter(UtahAxis::Row),
            self.df_iter(UtahAxis::Row),
            copy_labels(other.column_labels()),
            copy_labels(self.column_labels()),
        )
    }

    /// Joins each row of `other` with the row of this frame that carries the
    /// same label, if there is one.
    pub fn outer_right_join<'a>(&'a self, other: &'a DataFrame) -> (j: OuterJoinIter<'a>)
        requires
            self.wf(),
            other.wf(),
        ensures
            j.wf(),
            j.remaining() == outer_join(
                other@.windows(UtahAxis::Row),
                lookup_of(self@.windows(UtahAxis::Row)),
            ),
            j.left_columns.deep_view() == other@.columns,
            j.right_columns.deep_view() == self@.columns,
    {
        OuterJoin::new(
            other.df_iter(UtahAxis::Row),
            self.df_iter(UtahAxis::Row),
            copy_labels(other.column_labels()),
            copy_labels(self.column_labels()),
        )
    }

    /// Puts the windows of `other` along `axis` after those of this frame:
    /// along `Row` the rows of `other` come under the rows of this frame and
    /// the column labels of this frame are kept, along `Column` the columns
    /// of `other` come beside those of this frame and its row labels are
    /// kept.
    pub fn concat<'a>(&'a self, other: &'a DataFrame, axis: UtahAxis) -> (c: ConcatIter<'a>)
        requires
            self.wf(),
            other.wf(),
        ensures
            c.wf(),
            c.remaining() == self@.windows(axis) + other@.windows(axis),
            c.concat_other.deep_view() == self@.other(axis),
            c.axis == axis,
    {
        Concat::new(self.df_iter(axis), other.df_iter(axis), self.other_labels(axis), axis)
    }

    /// The sum of each row or each column.
    pub fn sumdf<'a>(&'a self, axis: UtahAxis) -> (s: SumIter<'a>)
        requires
            self.wf(),
        ensures
            s.wf(),
            s.remaining() == reduced(self@.windows(axis), Reduction::Sum),
            s.other.deep_view() == default_labels(1),
            s.axis == axis,
    {
        Sum::new(self.df_iter(axis), make_default_labels(1), axis)
    }

    /// The mean of each row or each column.
    pub fn mean<'a>(&'a self, axis: UtahAxis) -> (s: MeanIter<'a>)
        requires
            self.wf(),
        ensures
            s.wf(),
            s.remaining() == reduced(self@.windows(axis), Reduction::Mean),
            s.other.deep_view() == default_labels(1),
            s.axis == axis,
    {
        Mean::new(self.df_iter(axis), make_default_labels(1), axis)
    }

    /// The greatest cell of each row or each column.
    pub fn maxdf<'a>(&'a self, axis: UtahAxis) -> (s: MaxIter<'a>)
        requires
            self.wf(),
        ensures
            s.wf(),
            s.remaining() == reduced(self@.windows(axis), Reduction::Max),
            s.other.deep_view() == default_labels(1),
            s.axis == axis,
    {
        Max::new(self.df_iter(axis), make_default_labels(1), axis)
    }

    /// The least cell of each row or each column.
    pub fn mindf<'a>(&'a self, axis: UtahAxis) -> (s: MinIter<'a>)
        requires
            self.wf(),
        ensures
            s.wf(),
            s.remaining() == reduced(self@.windows(axis), Reduction::Min),
            s.other.deep_view() == default_labels(1),
            s.axis == axis,
    {
        Min::new(self.df_iter(axis), make_default_labels(1), axis)
    }

    /// The standard deviation of each row or each column.
    pub fn stdev<'a>(&'a self, axis: UtahAxis) -> (s: StdevIter<'a>)
        requires
            self.wf(),
        ensures
            s.wf(),
            s.remaining() == reduced(self@.windows(axis), Reduction::Stdev),
            s.other.deep_view() == default_labels(1),
            s.axis == axis,
    {
        Stdev::new(self.df_iter(axis), make_default_labels(1), axis)
    }

    /// Applies `f` to every cell, row by row or column by column, in place.
    pub fn mapdf<'a, F: Fn(i64) -> i64>(&'a mut self, f: F, axis: UtahAxis) -> (m: MapDFIter<
        'a,
        F,
    >)
        requires
            old(self).wf(),
            accepts(f, old(self)@.windows(axis)),
        ensures
            m.wf(),
            *m.data.frame == *old(self),
            *final(m.data.frame) == *final(self),
            m.data.axis == axis,
            m.data.pos == 0,
            m.func == f,
            m.other.deep_view() == old(self)@.other(axis),
            m.axis == axis,
    {
        let other = self.other_labels(axis);
        MapDF::new(self.df_iter_mut(axis), f, other, axis)
    }

    /// Applies `f` to every cell, row by row or column by column, in place.
    pub fn map<'a, F: Fn(i64) -> i64>(&'a mut self, f: F, axis: UtahAxis) -> (m: MapDFIter<'a, F>)
        requires
            old(self).wf(),
            accepts(f, old(self)@.windows(axis)),
        ensures
            m.wf(),
            *m.data.frame == *old(self),
            *final(m.data.frame) == *final(self),
            m.data.axis == axis,
            m.data.pos == 0,
            m.func == f,
            m.other.deep_view() == old(self)@.other(axis),
            m.axis == axis,
    {
        self.mapdf(f, axis)
    }

    /// Fills the missing cells of each row or each column, in place.
    pub fn impute<'a>(&'a mut self, strategy: ImputeStrategy, axis: UtahAxis) -> (m: ImputeIter<
        'a,
    >)
        requires
            old(self).wf(),
        ensures
            m.wf(),
            *m.data.frame == *old(self),
            *final(m.data.frame) == *final(self),
            m.data.axis == axis,
            m.data.pos == 0,
            m.strategy == strategy,
            m.other.deep_view() == old(self)@.other(axis),
            m.axis == axis,
    {
        let other = self.other_labels(axis);
        Impute::new(self.df_iter_mut(axis), strategy, other, axis)
    }
}

} // verus!
