//! The dataframe: a dense matrix with a label for each row and each column,
//! and its traversals.

use vstd::prelude::*;
use crate::laws::law_round_trip;
use crate::materialize::{collect_array, collect_frame, collect_matrix, matrix_result_is};
use crate::matrix::{rectangular, Matrix};
use crate::model::{
    assemble,
    assemble_matrix,
    cells_of,
    labels_of,
    lemma_lanes_deep_view,
    storable,
    FrameModel,
    WindowModel,
};
use crate::util::error::UtahError;
use crate::util::labels::{
    all_distinct,
    copy_labels,
    default_labels,
    lemma_default_labels_distinct,
    make_default_labels,
    owned_labels,
};
use crate::util::traits::{Window, WindowStream};
use crate::util::types::UtahAxis;

verus! {

/// A dense matrix of `i64` cells with a label for each column and each row.
pub struct DataFrame {
    data: Matrix,
    columns: Vec<String>,
    index: Vec<String>,
}

impl View for DataFrame {
    type V = FrameModel;

    closed spec fn view(&self) -> FrameModel {
        FrameModel {
            rows: self.data@,
            columns: self.columns.deep_view(),
            index: self.index.deep_view(),
        }
    }
}

/// What putting a matrix and two label sequences together gives: a frame,
/// `ShapeMismatch` where an axis has not one label for each of its lanes, or
/// else `LabelConflict` where a label occurs twice on one axis.
pub open spec fn frame_of_parts(
    rows: Seq<Seq<i64>>,
    width: nat,
    columns: Seq<Seq<char>>,
    index: Seq<Seq<char>>,
) -> Result<FrameModel, UtahError> {
    if columns.len() != width || index.len() != rows.len() {
        Err(UtahError::ShapeMismatch)
    } else if !columns.no_duplicates() || !index.no_duplicates() {
        Err(UtahError::LabelConflict)
    } else {
        Ok(FrameModel { rows, columns, index })
    }
}

/// The result `r` is what the model `expected` says: the same error, or a
/// valid frame that holds the expected rows and labels.
pub open spec fn frame_result_is(r: Result<DataFrame, UtahError>, expected: Result<
    FrameModel,
    UtahError,
>) -> bool {
    match r {
        Ok(df) => df.wf() && expected == Ok::<FrameModel, UtahError>(df@),
        Err(e) => expected == Err::<FrameModel, UtahError>(e),
    }
}

impl DataFrame {
    /// The matrix has as many columns as there are column labels.
    pub closed spec fn consistent(&self) -> bool {
        self.data.width() == self.columns.len() && rectangular(self.data@, self.data.width())
    }

    /// The invariant of a dataframe: one label for each row and each column,
    /// and no label twice on one axis.
    pub open spec fn wf(&self) -> bool {
        self@.wf() && self.consistent()
    }

    /// A frame around `data` with the default labels `0`, `1`, ... on both
    /// axes.
    pub fn new(data: Matrix) -> (df: DataFrame)
        ensures
            df.wf(),
            df@ == (FrameModel {
                rows: data@,
                columns: default_labels(data.width()),
                index: default_labels(data@.len()),
            }),
    {
        let (nrows, ncols) = data.dim();
        let columns = make_default_labels(ncols);
        let index = make_default_labels(nrows);
        proof {
            lemma_default_labels_distinct(ncols as nat);
            lemma_default_labels_distinct(nrows as nat);
        }
        DataFrame { data, columns, index }
    }

    /// A frame of the given matrix and labels.
    pub fn from_parts(data: Matrix, columns: Vec<String>, index: Vec<String>) -> (r: Result<
        DataFrame,
        UtahError,
    >)
        ensures
            frame_result_is(
                r,
                frame_of_parts(data@, data.width(), columns.deep_view(), index.deep_view()),
            ),
    {
        let (nrows, ncols) = data.dim();
        if columns.len() != ncols || index.len() != nrows {
            return Err(UtahError::ShapeMismatch);
        }
        if !all_distinct(&columns) || !all_distinct(&index) {
            return Err(UtahError::LabelConflict);
        }
        Ok(DataFrame { data, columns, index })
    }

    /// The same frame with `labels` as its column labels.
    pub fn columns(self, labels: &[&str]) -> (r: Result<DataFrame, UtahError>)
        requires
            self.wf(),
        ensures
            frame_result_is(
                r,
                frame_of_parts(
                    self@.rows,
                    self@.columns.len(),
                    labels@.map_values(|t: &str| t@),
                    self@.index,
                ),
            ),
    {
        let columns = owned_labels(labels);
        DataFrame::from_parts(self.data, columns, self.index)
    }

    /// The same frame with `labels` as its row labels.
    pub fn index(self, labels: &[&str]) -> (r: Result<DataFrame, UtahError>)
        requires
            self.wf(),
        ensures
            frame_result_is(
                r,
                frame_of_parts(
                    self@.rows,
                    self@.columns.len(),
                    self@.columns,
                    labels@.map_values(|t: &str| t@),
                ),
            ),
    {
        let index = owned_labels(labels);
        DataFrame::from_parts(self.data, self.columns, index)
    }

    /// The number of rows and the number of columns.
    pub fn shape(&self) -> (d: (usize, usize))
        requires
            self.wf(),
        ensures
            d.0 == self@.index.len(),
            d.1 == self@.columns.len(),
    {
        self.data.dim()
    }

    /// The column labels, left to right.
    pub fn column_labels(&self) -> (labels: &Vec<String>)
        ensures
            labels.deep_view() == self@.columns,
    {
        &self.columns
    }

    /// The row labels, top to bottom.
    pub fn row_labels(&self) -> (labels: &Vec<String>)
        ensures
            labels.deep_view() == self@.index,
    {
        &self.index
    }

    /// The labels of the axis that a traversal along `axis` keeps fixed.
    pub fn other_labels(&self, axis: UtahAxis) -> (labels: Vec<String>)
        ensures
            labels.deep_view() == self@.other(axis),
    {
        match axis {
            UtahAxis::Row => copy_labels(&self.columns),
            UtahAxis::Column => copy_labels(&self.index),
        }
    }

    /// The matrix of the frame.
    pub fn matrix(&self) -> (m: &Matrix)
        ensures
            m@ == self@.rows,
            self.wf() ==> m.width() == self@.columns.len(),
    {
        &self.data
    }

    /// The cells of the frame, row by row.
    pub fn to_rows(&self) -> (rows: Vec<Vec<i64>>)
        requires
            self.wf(),
        ensures
            rows.deep_view() == self@.rows,
    {
        let (nrows, ncols) = self.data.dim();
        let mut rows: Vec<Vec<i64>> = Vec::new();
        let mut i: usize = 0;
        while i < nrows
            invariant
                i <= nrows,
                nrows == self.data@.len(),
                rows.len() == i,
                forall|k: int| 0 <= k < i ==> (#[trigger] rows[k])@ == self.data@[k],
            decreases nrows - i,
        {
            rows.push(self.data.row(i).to_vec());
            i = i + 1;
        }
        proof {
            lemma_lanes_deep_view(rows);
            assert(rows.deep_view() =~= self@.rows);
        }
        rows
    }

    /// The traversal of the frame along `axis` that can rewrite the frame's
    /// cells window by window.
    pub fn df_iter_mut(&mut self, axis: UtahAxis) -> (it: DataFrameMutIterator<'_>)
        requires
            old(self).wf(),
        ensures
            it.wf(),
            *it.frame == *old(self),
            *final(it.frame) == *final(self),
            it.axis == axis,
            it.pos == 0,
    {
        DataFrameMutIterator { frame: self, axis, pos: 0 }
    }

    /// The traversal of the frame along `axis`: its rows top to bottom, or
    /// its columns left to right, each a view into the frame's matrix.
    pub fn df_iter(&self, axis: UtahAxis) -> (it: DataFrameIterator<'_>)
        requires
            self.wf(),
        ensures
            it.wf(),
            it.remaining() == self@.windows(axis),
            it.frame == self,
            it.axis == axis,
            it.pos == 0,
    {
        let it = DataFrameIterator { frame: self, axis, pos: 0 };
        assert(it.remaining() =~= self@.windows(axis));
        it
    }
}

/// The traversal of a frame along an axis that can rewrite the window it has
/// reached.
pub struct DataFrameMutIterator<'a> {
    pub frame: &'a mut DataFrame,
    pub axis: UtahAxis,
    pub pos: usize,
}

impl<'a> DataFrameMutIterator<'a> {
    /// The invariant of the traversal.
    pub open spec fn wf(&self) -> bool {
        self.frame.wf() && self.pos <= self.frame@.labels(self.axis).len()
    }

    /// The windows that are still to be visited, in order.
    pub open spec fn remaining(&self) -> Seq<WindowModel> {
        self.frame@.windows(self.axis).skip(self.pos as int)
    }

    /// The label of the window that the traversal has reached and a copy of
    /// its cells, or `None` when no window is left.
    pub fn current(&self) -> (w: Option<(String, Vec<i64>)>)
        requires
            self.wf(),
        ensures
            match w {
                Some(w) => self.remaining().len() > 0 && w.0@ == self.remaining()[0].0 && w.1@
                    == self.remaining()[0].1,
                None => self.remaining().len() == 0,
            },
    {
        let (nrows, ncols) = self.frame.data.dim();
        match self.axis {
            UtahAxis::Row => {
                if self.pos < nrows {
                    let label = self.frame.index[self.pos].clone();
                    let cells = self.frame.data.row(self.pos).to_vec();
                    Some((label, cells))
                } else {
                    None
                }
            },
            UtahAxis::Column => {
                if self.pos < ncols {
                    let label = self.frame.columns[self.pos].clone();
                    let cells = self.frame.data.column(self.pos).to_vec();
                    Some((label, cells))
                } else {
                    None
                }
            },
        }
    }

    /// Steps over the window that the traversal has reached and leaves it as
    /// it is.
    pub fn skip(&mut self)
        requires
            old(self).wf(),
            old(self).remaining().len() > 0,
        ensures
            final(self).wf(),
            *final(self).frame == *old(self).frame,
            *final(final(self).frame) == *final(old(self).frame),
            final(self).axis == old(self).axis,
            final(self).pos == old(self).pos + 1,
            final(self).remaining() == old(self).remaining().skip(1),
    {
        proof {
            assert(self.frame@.index.len() == self.frame.index.len());
            assert(self.frame@.columns.len() == self.frame.columns.len());
            assert(self.pos < self.frame@.labels(self.axis).len());
        }
        self.pos = self.pos + 1;
        assert(self.remaining() =~= old(self).remaining().skip(1));
    }

    /// Writes `cells` over the window that the traversal has reached, in the
    /// frame's own matrix, and steps to the next window.
    pub fn replace(&mut self, cells: &Vec<i64>)
        requires
            old(self).wf(),
            old(self).remaining().len() > 0,
            cells@.len() == old(self).remaining()[0].1.len(),
        ensures
            final(self).wf(),
            final(self).frame@ == old(self).frame@.with_lane(
                old(self).axis,
                old(self).pos as int,
                cells@,
            ),
            *final(final(self).frame) == *final(old(self).frame),
            final(self).axis == old(self).axis,
            final(self).pos == old(self).pos + 1,
    {
        let (nrows, ncols) = self.frame.data.dim();
        let ghost before = self.frame.data@;
        let pos = self.pos;
        match self.axis {
            UtahAxis::Row => {
                let mut j: usize = 0;
                while j < ncols
                    invariant
                        j <= ncols,
                        pos < nrows,
                        cells@.len() == ncols,
                        self.frame.data.width() == ncols,
                        self.frame.data@.len() == nrows,
                        before.len() == nrows,
                        rectangular(before, ncols as nat),
                        self.frame.columns == old(self).frame.columns,
                        self.frame.index == old(self).frame.index,
                        self.axis == old(self).axis,
                        self.pos == old(self).pos,
                        *final(self.frame) == *final(old(self).frame),
                        forall|i: int|
                            0 <= i < nrows && i != pos ==> #[trigger] self.frame.data@[i]
                                == before[i],
                        self.frame.data@[pos as int].len() == ncols,
                        forall|c: int|
                            0 <= c < j ==> #[trigger] self.frame.data@[pos as int][c] == cells@[c],
                    decreases ncols - j,
                {
                    self.frame.data.set(pos, j, cells[j]);
                    j = j + 1;
                }
                proof {
                    assert(self.frame.data@[pos as int] =~= cells@);
                    assert(self.frame.data@ =~= before.update(pos as int, cells@));
                }
            },
            UtahAxis::Column => {
                let mut i: usize = 0;
                while i < nrows
                    invariant
                        i <= nrows,
                        pos < ncols,
                        cells@.len() == nrows,
                        self.frame.data.width() == ncols,
                        self.frame.data@.len() == nrows,
                        before.len() == nrows,
                        rectangular(before, ncols as nat),
                        self.frame.columns == old(self).frame.columns,
                        self.frame.index == old(self).frame.index,
                        self.axis == old(self).axis,
                        self.pos == old(self).pos,
                        *final(self.frame) == *final(old(self).frame),
                        forall|r: int|
                            0 <= r < i ==> #[trigger] self.frame.data@[r] == before[r].update(
                                pos as int,
                                cells@[r],
                            ),
                        forall|r: int| i <= r < nrows ==> #[trigger] self.frame.data@[r] == before[r],
                    decreases nrows - i,
                {
                    self.frame.data.set(i, pos, cells[i]);
                    i = i + 1;
                }
                proof {
                    assert(self.frame.data@ =~= Seq::new(
                        before.len(),
                        |r: int| before[r].update(pos as int, cells@[r]),
                    ));
                }
            },
        }
        self.pos = self.pos + 1;
    }
}

/// The traversal of a frame along an axis.
pub struct DataFrameIterator<'a> {
    pub frame: &'a DataFrame,
    pub axis: UtahAxis,
    pub pos: usize,
}

impl<'a> WindowStream<'a> for DataFrameIterator<'a> {
    open spec fn wf(&self) -> bool {
        self.frame.wf() && self.pos <= self.frame@.labels(self.axis).len()
    }

    open spec fn remaining(&self) -> Seq<WindowModel> {
        self.frame@.windows(self.axis).skip(self.pos as int)
    }

    fn next(&mut self) -> (w: Option<Window<'a>>)
        ensures
            final(self).frame == old(self).frame,
            final(self).axis == old(self).axis,
    {
        let frame: &'a DataFrame = self.frame;
        let (nrows, ncols) = frame.data.dim();
        match self.axis {
            UtahAxis::Row => {
                if self.pos < nrows {
                    let label = frame.index[self.pos].clone();
                    let cells = frame.data.row(self.pos);
                    self.pos = self.pos + 1;
                    assert(self.remaining() =~= old(self).remaining().skip(1));
                    Some((label, cells))
                } else {
                    None
                }
            },
            UtahAxis::Column => {
                if self.pos < ncols {
                    let label = frame.columns[self.pos].clone();
                    let cells = frame.data.column(self.pos);
                    self.pos = self.pos + 1;
                    assert(self.remaining() =~= old(self).remaining().skip(1));
                    Some((label, cells))
                } else {
                    None
                }
            },
        }
    }
}

impl<'a> DataFrameIterator<'a> {
    /// Drains the traversal into a frame. A traversal that has handed out
    /// nothing yet gives back the frame that it traverses, cell for cell
    /// and label for label.
    pub fn as_df(self) -> (r: Result<DataFrame, UtahError>)
        requires
            self.wf(),
        ensures
            frame_result_is(
                r,
                assemble(
                    labels_of(self.remaining()),
                    cells_of(self.remaining()),
                    self.frame@.other(self.axis),
                    self.axis,
                ),
            ),
            self.pos == 0 && storable(self.frame@.index.len(), self.frame@.columns.len()) ==> (r
                matches Ok(df) && df@ == self.frame@),
    {
        proof {
            if self.pos == 0 && storable(self.frame@.index.len(), self.frame@.columns.len()) {
                law_round_trip(self.frame@, self.axis);
                assert(self.remaining() =~= self.frame@.windows(self.axis));
            }
        }
        let other = self.frame.other_labels(self.axis);
        let axis = self.axis;
        collect_frame(self, other, axis)
    }

    /// Drains the traversal into a bare matrix.
    pub fn as_matrix(self) -> (r: Result<Matrix, UtahError>)
        requires
            self.wf(),
        ensures
            matrix_result_is(
                r,
                assemble_matrix(
                    cells_of(self.remaining()),
                    self.frame@.other(self.axis).len(),
                    self.axis,
                ),
            ),
    {
        let width = self.frame.other_labels(self.axis).len();
        let axis = self.axis;
        collect_matrix(self, width, axis)
    }

    /// Drains the traversal into one flat vector.
    pub fn as_array(self) -> (r: Result<Vec<i64>, UtahError>)
        requires
            self.wf(),
        ensures
            r matches Ok(cells) && cells@ == cells_of(self.remaining()).flatten(),
    {
        Ok(collect_array(self))
    }
}

} // verus!
