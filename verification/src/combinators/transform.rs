//! Combinators that rewrite the cells of a frame in place, window by window.

use vstd::prelude::*;
use crate::dataframe::{frame_result_is, DataFrame, DataFrameMutIterator};
use crate::materialize::{
    array_from_windows,
    frame_from_windows,
    matrix_from_windows,
    matrix_result_is,
    owned_model,
    OwnedWindow,
};
use crate::matrix::Matrix;
use crate::model::{
    assemble,
    assemble_matrix,
    cells_of,
    labels_of,
    lemma_lane_len,
    lemma_with_lane,
    FrameModel,
    WindowModel,
};
use crate::reduce::{impute_cells, imputed};
use crate::util::error::UtahError;
use crate::util::types::{ImputeStrategy, UtahAxis};

verus! {

/// `after` holds, cell for cell, what `f` may return on the cells of
/// `before`.
pub open spec fn mapped<F: Fn(i64) -> i64>(f: F, before: Seq<i64>, after: Seq<i64>) -> bool {
    &&& before.len() == after.len()
    &&& forall|i: int|
        #![trigger after[i]]
        0 <= i < before.len() ==> call_ensures(f, (before[i],), after[i])
}

/// `after` is `before` with `f` applied to every cell of the windows along
/// `axis` from window `from` up to, not including, window `to`; the labels
/// and the other windows are the same.
pub open spec fn mapped_between<F: Fn(i64) -> i64>(
    f: F,
    before: FrameModel,
    after: FrameModel,
    axis: UtahAxis,
    from: int,
    to: int,
) -> bool {
    &&& after.columns == before.columns
    &&& after.index == before.index
    &&& forall|k: int|
        #![trigger after.lane(axis, k)]
        0 <= k < before.labels(axis).len() ==> if from <= k < to {
            mapped(f, before.lane(axis, k), after.lane(axis, k))
        } else {
            after.lane(axis, k) == before.lane(axis, k)
        }
}

/// `f` can be called on every cell of every window.
pub open spec fn accepts<F: Fn(i64) -> i64>(f: F, windows: Seq<WindowModel>) -> bool {
    forall|k: int, i: int|
        0 <= k < windows.len() && 0 <= i < windows[k].1.len() ==> call_requires(
            f,
            (#[trigger] windows[k].1[i],),
        )
}

/// Applies `f` to each cell.
fn map_cells<F: Fn(i64) -> i64>(f: &F, cells: &Vec<i64>) -> (out: Vec<i64>)
    requires
        forall|i: int| 0 <= i < cells@.len() ==> call_requires(*f, (#[trigger] cells@[i],)),
    ensures
        mapped(*f, cells@, out@),
{
    let mut out: Vec<i64> = Vec::new();
    let mut i: usize = 0;
    while i < cells.len()
        invariant
            i <= cells.len(),
            out.len() == i,
            forall|i: int| 0 <= i < cells@.len() ==> call_requires(*f, (#[trigger] cells@[i],)),
            forall|k: int| #![trigger out@[k]] 0 <= k < i ==> call_ensures(*f, (cells@[k],), out@[k]),
        decreases cells.len() - i,
    {
        let y = f(cells[i]);
        out.push(y);
        i = i + 1;
    }
    out
}

/// Applies a function to every cell of every window of a rewriting
/// traversal, in the frame's own matrix, and hands out each window as it
/// stands afterwards.
pub struct MapDF<'a, F> {
    pub data: DataFrameMutIterator<'a>,
    pub func: F,
    pub other: Vec<String>,
    pub axis: UtahAxis,
}

impl<'a, F: Fn(i64) -> i64> MapDF<'a, F> {
    /// Maps `f` over the windows of `df`; `other` holds the labels of the
    /// axis that `df` keeps fixed.
    pub fn new(df: DataFrameMutIterator<'a>, f: F, other: Vec<String>, axis: UtahAxis) -> (m:
        MapDF<'a, F>)
        ensures
            m.data == df,
            m.func == f,
            m.other == other,
            m.axis == axis,
    {
        MapDF { data: df, func: f, other, axis }
    }

    /// The invariant of the combinator: that of its traversal, and `func`
    /// can be called on every cell that is still to be rewritten.
    pub open spec fn wf(&self) -> bool {
        self.data.wf() && accepts(self.func, self.data.remaining())
    }

    /// The windows that are still to be rewritten, as they stand now.
    pub open spec fn remaining(&self) -> Seq<WindowModel> {
        self.data.remaining()
    }

    /// Rewrites the next window in place and hands out its label and a copy
    /// of its new cells, or `None` when no window is left.
    pub fn next(&mut self) -> (item: Option<OwnedWindow>)
        requires
            old(self).wf(),
        ensures
            final(self).wf(),
            final(self).func == old(self).func,
            final(self).other == old(self).other,
            final(self).axis == old(self).axis,
            final(self).data.axis == old(self).data.axis,
            *final(final(self).data.frame) == *final(old(self).data.frame),
            match item {
                Some(w) => {
                    &&& old(self).remaining().len() > 0
                    &&& w.0@ == old(self).remaining()[0].0
                    &&& mapped(old(self).func, old(self).remaining()[0].1, w.1@)
                    &&& final(self).data.frame@ == old(self).data.frame@.with_lane(
                        old(self).data.axis,
                        old(self).data.pos as int,
                        w.1@,
                    )
                    &&& final(self).data.pos == old(self).data.pos + 1
                },
                None => {
                    &&& old(self).remaining().len() == 0
                    &&& *final(self).data.frame == *old(self).data.frame
                    &&& final(self).data.pos == old(self).data.pos
                },
            },
    {
        let ghost before = self.data.frame@;
        let ghost waiting = self.data.remaining();
        let ghost pos = self.data.pos as int;
        let ghost axis = self.data.axis;
        match self.data.current() {
            Some((label, cells)) => {
                assert forall|i: int| 0 <= i < cells@.len() implies call_requires(
                    self.func,
                    (#[trigger] cells@[i],),
                ) by {
                    assert(cells@[i] == waiting[0].1[i]);
                }
                let out = map_cells(&self.func, &cells);
                self.data.replace(&out);
                proof {
                    lemma_lane_len(before, axis, pos);
                    lemma_with_lane(before, axis, pos, out@);
                    let left = self.data.remaining();
                    assert forall|k: int, i: int|
                        0 <= k < left.len() && 0 <= i < left[k].1.len() implies call_requires(
                        self.func,
                        (#[trigger] left[k].1[i],),
                    ) by {
                        assert(self.data.frame@.lane(axis, pos + 1 + k) == before.lane(
                            axis,
                            pos + 1 + k,
                        ));
                        assert(left[k].1 == waiting[k + 1].1);
                    }
                }
                Some((label, out))
            },
            None => None,
        }
    }

    /// Rewrites every window that is left, and returns each with its label
    /// as it stands afterwards.
    pub fn collect_windows(&mut self) -> (rows: Vec<OwnedWindow>)
        requires
            old(self).wf(),
        ensures
            final(self).wf(),
            final(self).func == old(self).func,
            final(self).other == old(self).other,
            final(self).axis == old(self).axis,
            final(self).data.axis == old(self).data.axis,
            *final(final(self).data.frame) == *final(old(self).data.frame),
            final(self).remaining().len() == 0,
            mapped_between(
                old(self).func,
                old(self).data.frame@,
                final(self).data.frame@,
                old(self).data.axis,
                old(self).data.pos as int,
                old(self).data.frame@.labels(old(self).data.axis).len() as int,
            ),
            owned_model(rows@) == final(self).data.frame@.windows(old(self).data.axis).skip(
                old(self).data.pos as int,
            ),
    {
        let ghost start = self.data.frame@;
        let ghost axis = self.data.axis;
        let ghost from = self.data.pos as int;
        let ghost count = start.labels(axis).len() as int;
        let mut rows: Vec<OwnedWindow> = Vec::new();
        assert(owned_model(rows@) =~= self.data.frame@.windows(axis).subrange(from, from));
        loop
            invariant
                self.wf(),
                self.func == old(self).func,
                self.other == old(self).other,
                self.axis == old(self).axis,
                self.data.axis == axis,
                axis == old(self).data.axis,
                start == old(self).data.frame@,
                start.wf(),
                from == old(self).data.pos,
                count == start.labels(axis).len(),
                *final(self.data.frame) == *final(old(self).data.frame),
                from <= self.data.pos <= count,
                mapped_between(self.func, start, self.data.frame@, axis, from, self.data.pos as int),
                owned_model(rows@) == self.data.frame@.windows(axis).subrange(
                    from,
                    self.data.pos as int,
                ),
            decreases count - self.data.pos,
        {
            let ghost before = self.data.frame@;
            let ghost pos = self.data.pos as int;
            let ghost held = rows@;
            match self.next() {
                Some(w) => {
                    proof {
                        let after = self.data.frame@;
                        lemma_lane_len(before, axis, pos);
                        lemma_with_lane(before, axis, pos, w.1@);
                        assert forall|k: int|
                            #![trigger after.lane(axis, k)]
                            0 <= k < count implies if from <= k < pos + 1 {
                            mapped(self.func, start.lane(axis, k), after.lane(axis, k))
                        } else {
                            after.lane(axis, k) == start.lane(axis, k)
                        } by {
                            if k != pos {
                                assert(after.lane(axis, k) == before.lane(axis, k));
                            }
                        }
                        assert(owned_model(held.push(w)) =~= owned_model(held).push((w.0@, w.1@)));
                        assert forall|k: int| from <= k < pos implies after.windows(axis)[k]
                            == before.windows(axis)[k] by {
                            assert(after.lane(axis, k) == before.lane(axis, k));
                        }
                        assert(after.windows(axis).subrange(from, pos + 1)
                            =~= before.windows(axis).subrange(from, pos).push((w.0@, w.1@)));
                    }
                    rows.push(w);
                },
                None => {
                    proof {
                        assert(self.data.frame@.windows(axis).subrange(from, self.data.pos as int)
                            =~= self.data.frame@.windows(axis).skip(from));
                    }
                    return rows;
                },
            }
        }
    }

    /// Rewrites every window that is left and builds a frame of them. The
    /// frame that the traversal borrows is rewritten as well.
    pub fn as_df(self) -> (r: Result<DataFrame, UtahError>)
        requires
            self.wf(),
        ensures
            final(self.data.frame).wf(),
            mapped_between(
                self.func,
                old(self.data.frame)@,
                final(self.data.frame)@,
                self.data.axis,
                self.data.pos as int,
                old(self.data.frame)@.labels(self.data.axis).len() as int,
            ),
            frame_result_is(
                r,
                assemble(
                    labels_of(
                        final(self.data.frame)@.windows(self.data.axis).skip(self.data.pos as int),
                    ),
                    cells_of(
                        final(self.data.frame)@.windows(self.data.axis).skip(self.data.pos as int),
                    ),
                    self.other.deep_view(),
                    self.axis,
                ),
            ),
    {
        let mut this = self;
        let rows = this.collect_windows();
        frame_from_windows(&rows, this.other, this.axis)
    }

    /// Rewrites every window that is left and builds a bare matrix of them.
    /// The frame that the traversal borrows is rewritten as well.
    pub fn as_matrix(self) -> (r: Result<Matrix, UtahError>)
        requires
            self.wf(),
        ensures
            final(self.data.frame).wf(),
            mapped_between(
                self.func,
                old(self.data.frame)@,
                final(self.data.frame)@,
                self.data.axis,
                self.data.pos as int,
                old(self.data.frame)@.labels(self.data.axis).len() as int,
            ),
            matrix_result_is(
                r,
                assemble_matrix(
                    cells_of(
                        final(self.data.frame)@.windows(self.data.axis).skip(self.data.pos as int),
                    ),
                    self.other.len() as nat,
                    self.axis,
                ),
            ),
    {
        let mut this = self;
        let rows = this.collect_windows();
        matrix_from_windows(&rows, this.other.len(), this.axis)
    }

    /// Rewrites every window that is left and lays their cells end to end.
    /// The frame that the traversal borrows is rewritten as well.
    pub fn as_array(self) -> (r: Result<Vec<i64>, UtahError>)
        requires
            self.wf(),
        ensures
            final(self.data.frame).wf(),
            mapped_between(
                self.func,
                old(self.data.frame)@,
                final(self.data.frame)@,
                self.data.axis,
                self.data.pos as int,
                old(self.data.frame)@.labels(self.data.axis).len() as int,
            ),
            r matches Ok(cells) && cells@ == cells_of(
                final(self.data.frame)@.windows(self.data.axis).skip(self.data.pos as int),
            ).flatten(),
    {
        let mut this = self;
        let rows = this.collect_windows();
        Ok(array_from_windows(&rows))
    }
}

/// What imputation hands out: the label of a window, and its cells after
/// imputation or the reason why it could not be imputed.
pub type Imputed = (String, Result<Vec<i64>, UtahError>);

/// The first window along `axis`, from window `from` on, that cannot be
/// imputed, or the number of windows where every one can.
pub open spec fn first_failure(
    strategy: ImputeStrategy,
    frame: FrameModel,
    axis: UtahAxis,
    from: int,
) -> int
    decreases frame.labels(axis).len() - from,
{
    if from >= frame.labels(axis).len() {
        frame.labels(axis).len() as int
    } else if imputed(strategy, frame.lane(axis, from)) is Err {
        from
    } else {
        first_failure(strategy, frame, axis, from + 1)
    }
}

/// `after` is `before` with the windows along `axis` from window `from` up
/// to, not including, window `to` imputed; the labels and the other windows
/// are the same.
pub open spec fn imputed_between(
    strategy: ImputeStrategy,
    before: FrameModel,
    after: FrameModel,
    axis: UtahAxis,
    from: int,
    to: int,
) -> bool {
    &&& after.columns == before.columns
    &&& after.index == before.index
    &&& forall|k: int|
        #![trigger after.lane(axis, k)]
        0 <= k < before.labels(axis).len() ==> if from <= k < to {
            imputed(strategy, before.lane(axis, k)) == Ok::<Seq<i64>, UtahError>(
                after.lane(axis, k),
            )
        } else {
            after.lane(axis, k) == before.lane(axis, k)
        }
}

/// The windows that a drained imputation yields: those of `after` from
/// window `from` on, or the error of the first window of `before` that could
/// not be imputed.
pub open spec fn imputed_windows(
    strategy: ImputeStrategy,
    before: FrameModel,
    after: FrameModel,
    axis: UtahAxis,
    from: int,
) -> Result<Seq<WindowModel>, UtahError> {
    let stop = first_failure(strategy, before, axis, from);
    if stop < before.labels(axis).len() {
        Err(imputed(strategy, before.lane(axis, stop))->Err_0)
    } else {
        Ok(after.windows(axis).skip(from))
    }
}

/// An imputed window has as many cells as before.
pub proof fn lemma_imputed_len(strategy: ImputeStrategy, cells: Seq<i64>)
    ensures
        imputed(strategy, cells) matches Ok(out) ==> out.len() == cells.len(),
{
}

/// Fills the missing cells of every window of a rewriting traversal, in the
/// frame's own matrix, and hands out each window as it stands afterwards.
pub struct Impute<'a> {
    pub data: DataFrameMutIterator<'a>,
    pub strategy: ImputeStrategy,
    pub other: Vec<String>,
    pub axis: UtahAxis,
}

impl<'a> Impute<'a> {
    /// Imputes the windows of `df` with `strategy`; `other` holds the labels
    /// of the axis that `df` keeps fixed.
    pub fn new(
        df: DataFrameMutIterator<'a>,
        strategy: ImputeStrategy,
        other: Vec<String>,
        axis: UtahAxis,
    ) -> (m: Impute<'a>)
        ensures
            m.data == df,
            m.strategy == strategy,
            m.other == other,
            m.axis == axis,
    {
        Impute { data: df, strategy, other, axis }
    }

    /// The invariant of the combinator.
    pub open spec fn wf(&self) -> bool {
        self.data.wf()
    }

    /// The windows that are still to be imputed, as they stand now.
    pub open spec fn remaining(&self) -> Seq<WindowModel> {
        self.data.remaining()
    }

    /// Imputes the next window in place and hands out its label and a copy
    /// of its new cells. A window that cannot be imputed is left as it is and
    /// handed out with the reason. `None` when no window is left.
    pub fn next(&mut self) -> (item: Option<Imputed>)
        requires
            old(self).wf(),
        ensures
            final(self).wf(),
            final(self).strategy == old(self).strategy,
            final(self).other == old(self).other,
            final(self).axis == old(self).axis,
            final(self).data.axis == old(self).data.axis,
            *final(final(self).data.frame) == *final(old(self).data.frame),
            match item {
                Some((label, Ok(cells))) => {
                    &&& old(self).remaining().len() > 0
                    &&& label@ == old(self).remaining()[0].0
                    &&& imputed(old(self).strategy, old(self).remaining()[0].1) == Ok::<
                        Seq<i64>,
                        UtahError,
                    >(cells@)
                    &&& final(self).data.frame@ == old(self).data.frame@.with_lane(
                        old(self).data.axis,
                        old(self).data.pos as int,
                        cells@,
                    )
                    &&& final(self).data.pos == old(self).data.pos + 1
                },
                Some((label, Err(e))) => {
                    &&& old(self).remaining().len() > 0
                    &&& label@ == old(self).remaining()[0].0
                    &&& imputed(old(self).strategy, old(self).remaining()[0].1) == Err::<
                        Seq<i64>,
                        UtahError,
                    >(e)
                    &&& *final(self).data.frame == *old(self).data.frame
                    &&& final(self).data.pos == old(self).data.pos + 1
                },
                None => {
                    &&& old(self).remaining().len() == 0
                    &&& *final(self).data.frame == *old(self).data.frame
                    &&& final(self).data.pos == old(self).data.pos
                },
            },
    {
        match self.data.current() {
            Some((label, cells)) => {
                match impute_cells(self.strategy, &cells) {
                    Ok(out) => {
                        proof {
                            lemma_imputed_len(self.strategy, cells@);
                        }
                        self.data.replace(&out);
                        Some((label, Ok(out)))
                    },
                    Err(e) => {
                        self.data.skip();
                        Some((label, Err(e)))
                    },
                }
            },
            None => None,
        }
    }

    /// Imputes every window that is left, up to the first that cannot be
    /// imputed, and returns each with its label as it stands afterwards.
    pub fn collect_windows(&mut self) -> (r: Result<Vec<OwnedWindow>, UtahError>)
        requires
            old(self).wf(),
        ensures
            final(self).wf(),
            final(self).strategy == old(self).strategy,
            final(self).other == old(self).other,
            final(self).axis == old(self).axis,
            final(self).data.axis == old(self).data.axis,
            *final(final(self).data.frame) == *final(old(self).data.frame),
            imputed_between(
                old(self).strategy,
                old(self).data.frame@,
                final(self).data.frame@,
                old(self).data.axis,
                old(self).data.pos as int,
                first_failure(
                    old(self).strategy,
                    old(self).data.frame@,
                    old(self).data.axis,
                    old(self).data.pos as int,
                ),
            ),
            match r {
                Ok(rows) => imputed_windows(
                    old(self).strategy,
                    old(self).data.frame@,
                    final(self).data.frame@,
                    old(self).data.axis,
                    old(self).data.pos as int,
                ) == Ok::<Seq<WindowModel>, UtahError>(owned_model(rows@)),
                Err(e) => imputed_windows(
                    old(self).strategy,
                    old(self).data.frame@,
                    final(self).data.frame@,
                    old(self).data.axis,
                    old(self).data.pos as int,
                ) == Err::<Seq<WindowModel>, UtahError>(e),
            },
    {
        let ghost start = self.data.frame@;
        let ghost axis = self.data.axis;
        let ghost strategy = self.strategy;
        let ghost from = self.data.pos as int;
        let ghost count = start.labels(axis).len() as int;
        let mut rows: Vec<OwnedWindow> = Vec::new();
        assert(owned_model(rows@) =~= self.data.frame@.windows(axis).subrange(from, from));
        loop
            invariant
                self.wf(),
                self.strategy == old(self).strategy,
                strategy == self.strategy,
                self.other == old(self).other,
                self.axis == old(self).axis,
                self.data.axis == axis,
                axis == old(self).data.axis,
                start == old(self).data.frame@,
                start.wf(),
                from == old(self).data.pos,
                count == start.labels(axis).len(),
                *final(self.data.frame) == *final(old(self).data.frame),
                from <= self.data.pos <= count,
                first_failure(strategy, start, axis, from) == first_failure(
                    strategy,
                    start,
                    axis,
                    self.data.pos as int,
                ),
                imputed_between(strategy, start, self.data.frame@, axis, from, self.data.pos as int),
                owned_model(rows@) == self.data.frame@.windows(axis).subrange(
                    from,
                    self.data.pos as int,
                ),
            decreases count - self.data.pos,
        {
            let ghost before = self.data.frame@;
            let ghost pos = self.data.pos as int;
            let ghost held = rows@;
            match self.next() {
                Some((label, Ok(cells))) => {
                    proof {
                        let after = self.data.frame@;
                        lemma_lane_len(before, axis, pos);
                        lemma_imputed_len(strategy, before.lane(axis, pos));
                        lemma_with_lane(before, axis, pos, cells@);
                        assert(before.lane(axis, pos) == start.lane(axis, pos));
                        assert forall|k: int|
                            #![trigger after.lane(axis, k)]
                            0 <= k < count implies if from <= k < pos + 1 {
                            imputed(strategy, start.lane(axis, k)) == Ok::<Seq<i64>, UtahError>(
                                after.lane(axis, k),
                            )
                        } else {
                            after.lane(axis, k) == start.lane(axis, k)
                        } by {
                            if k != pos {
                                assert(after.lane(axis, k) == before.lane(axis, k));
                            }
                        }
                        assert(owned_model(held.push((label, cells))) =~= owned_model(held).push(
                            (label@, cells@),
                        ));
                        assert forall|k: int| from <= k < pos implies after.windows(axis)[k]
                            == before.windows(axis)[k] by {
                            assert(after.lane(axis, k) == before.lane(axis, k));
                        }
                        assert(after.windows(axis).subrange(from, pos + 1)
                            =~= before.windows(axis).subrange(from, pos).push((label@, cells@)));
                    }
                    rows.push((label, cells));
                },
                Some((_, Err(e))) => {
                    proof {
                        lemma_lane_len(before, axis, pos);
                        assert(before.lane(axis, pos) == start.lane(axis, pos));
                        assert(first_failure(strategy, start, axis, pos) == pos);
                    }
                    return Err(e);
                },
                None => {
                    proof {
                        assert(self.data.frame@.windows(axis).subrange(from, self.data.pos as int)
                            =~= self.data.frame@.windows(axis).skip(from));
                    }
                    return Ok(rows);
                },
            }
        }
    }

    /// Imputes every window that is left and builds a frame of them, or
    /// fails as the first window that cannot be imputed does. The frame that
    /// the traversal borrows is rewritten up to that window.
    pub fn as_df(self) -> (r: Result<DataFrame, UtahError>)
        requires
            self.wf(),
        ensures
            final(self.data.frame).wf(),
            imputed_between(
                self.strategy,
                old(self.data.frame)@,
                final(self.data.frame)@,
                self.data.axis,
                self.data.pos as int,
                first_failure(
                    self.strategy,
                    old(self.data.frame)@,
                    self.data.axis,
                    self.data.pos as int,
                ),
            ),
            frame_result_is(
                r,
                match imputed_windows(
                    self.strategy,
                    old(self.data.frame)@,
                    final(self.data.frame)@,
                    self.data.axis,
                    self.data.pos as int,
                ) {
                    Ok(ws) => assemble(labels_of(ws), cells_of(ws), self.other.deep_view(), self.axis),
                    Err(e) => Err(e),
                },
            ),
    {
        let mut this = self;
        let rows = this.collect_windows()?;
        frame_from_windows(&rows, this.other, this.axis)
    }

    /// Imputes every window that is left and builds a bare matrix of them,
    /// or fails as the first window that cannot be imputed does.
    pub fn as_matrix(self) -> (r: Result<Matrix, UtahError>)
        requires
            self.wf(),
        ensures
            final(self.data.frame).wf(),
            imputed_between(
                self.strategy,
                old(self.data.frame)@,
                final(self.data.frame)@,
                self.data.axis,
                self.data.pos as int,
                first_failure(
                    self.strategy,
                    old(self.data.frame)@,
                    self.data.axis,
                    self.data.pos as int,
                ),
            ),
            matrix_result_is(
                r,
                match imputed_windows(
                    self.strategy,
                    old(self.data.frame)@,
                    final(self.data.frame)@,
                    self.data.axis,
                    self.data.pos as int,
                ) {
                    Ok(ws) => assemble_matrix(cells_of(ws), self.other.len() as nat, self.axis),
                    Err(e) => Err(e),
                },
            ),
    {
        let mut this = self;
        let rows = this.collect_windows()?;
        matrix_from_windows(&rows, this.other.len(), this.axis)
    }

    /// Imputes every window that is left and lays their cells end to end, or
    /// fails as the first window that cannot be imputed does.
    pub fn as_array(self) -> (r: Result<Vec<i64>, UtahError>)
        requires
            self.wf(),
        ensures
            final(self.data.frame).wf(),
            imputed_between(
                self.strategy,
                old(self.data.frame)@,
                final(self.data.frame)@,
                self.data.axis,
                self.data.pos as int,
                first_failure(
                    self.strategy,
                    old(self.data.frame)@,
                    self.data.axis,
                    self.data.pos as int,
                ),
            ),
            match r {
                Ok(cells) => imputed_windows(
                    self.strategy,
                    old(self.data.frame)@,
                    final(self.data.frame)@,
                    self.data.axis,
                    self.data.pos as int,
                ) matches Ok(ws) && cells@ == cells_of(ws).flatten(),
                Err(e) => imputed_windows(
                    self.strategy,
                    old(self.data.frame)@,
                    final(self.data.frame)@,
                    self.data.axis,
                    self.data.pos as int,
                ) == Err::<Seq<WindowModel>, UtahError>(e),
            },
    {
        let mut this = self;
        let rows = this.collect_windows()?;
        Ok(array_from_windows(&rows))
    }
}

} // verus!
