//! Combinators that keep, drop or add windows.

use vstd::prelude::*;
use crate::dataframe::{frame_result_is, DataFrame};
use crate::materialize::{collect_array, collect_frame, collect_matrix, matrix_result_is};
use crate::matrix::{Matrix, SliceView};
use crate::model::{
    append_windows,
    assemble,
    assemble_matrix,
    cells_of,
    labels_of,
    lemma_filter_empty,
    lemma_filter_head,
    remove_windows,
    select_windows,
    WindowModel,
};
use crate::util::error::UtahError;
use crate::util::labels::{contains_label, copy_labels};
use crate::util::traits::{window_model, Window, WindowStream};
use crate::util::types::UtahAxis;

verus! {

/// Keeps the windows whose label is among `names`, in their order. A name
/// that labels no window is ignored.
pub struct Select<I> {
    pub data: I,
    pub names: Vec<String>,
    pub other: Vec<String>,
    pub axis: UtahAxis,
}

impl<I> Select<I> {
    /// Selects from `df` the windows labelled by one of `names`; `other`
    /// holds the labels of the axis that `df` keeps fixed.
    pub fn new(df: I, names: Vec<String>, other: Vec<String>, axis: UtahAxis) -> (s: Select<I>)
        ensures
            s.data == df,
            s.names == names,
            s.other == other,
            s.axis == axis,
    {
        Select { data: df, names, other, axis }
    }
}

impl<'a, I: WindowStream<'a>> WindowStream<'a> for Select<I> {
    open spec fn wf(&self) -> bool {
        self.data.wf()
    }

    open spec fn remaining(&self) -> Seq<WindowModel> {
        select_windows(self.data.remaining(), self.names.deep_view())
    }

    fn next(&mut self) -> (w: Option<Window<'a>>)
        ensures
            final(self).names == old(self).names,
            final(self).other == old(self).other,
            final(self).axis == old(self).axis,
    {
        let ghost names = self.names.deep_view();
        let ghost keep = |w: WindowModel| names.contains(w.0);
        loop
            invariant
                self.data.wf(),
                self.names == old(self).names,
                self.other == old(self).other,
                self.axis == old(self).axis,
                names == self.names.deep_view(),
                keep == |w: WindowModel| names.contains(w.0),
                self.data.remaining().filter(keep) == old(self).data.remaining().filter(keep),
            decreases self.data.remaining().len(),
        {
            let ghost before = self.data.remaining();
            match self.data.next() {
                Some(w) => {
                    proof {
                        lemma_filter_head(before, keep);
                    }
                    if contains_label(&self.names, &w.0) {
                        proof {
                            assert((seq![before[0]] + before.skip(1).filter(keep)).skip(1)
                                =~= before.skip(1).filter(keep));
                        }
                        return Some(w);
                    }
                    proof {
                        assert(Seq::<WindowModel>::empty() + before.skip(1).filter(keep)
                            =~= before.skip(1).filter(keep));
                    }
                },
                None => {
                    proof {
                        lemma_filter_empty(before, keep);
                    }
                    return None;
                },
            }
        }
    }
}

impl<'a, I: WindowStream<'a>> Select<I> {
    /// Drains the selection into a frame.
    pub fn as_df(self) -> (r: Result<DataFrame, UtahError>)
        requires
            self.wf(),
        ensures
            frame_result_is(
                r,
                assemble(
                    labels_of(self.remaining()),
                    cells_of(self.remaining()),
                    self.other.deep_view(),
                    self.axis,
                ),
            ),
    {
        let other = copy_labels(&self.other);
        let axis = self.axis;
        collect_frame(self, other, axis)
    }

    /// Drains the selection into a bare matrix.
    pub fn as_matrix(self) -> (r: Result<Matrix, UtahError>)
        requires
            self.wf(),
        ensures
            matrix_result_is(
                r,
                assemble_matrix(cells_of(self.remaining()), self.other.len() as nat, self.axis),
            ),
    {
        let width = self.other.len();
        let axis = self.axis;
        collect_matrix(self, width, axis)
    }

    /// Drains the selection into one flat vector.
    pub fn as_array(self) -> (r: Result<Vec<i64>, UtahError>)
        requires
            self.wf(),
        ensures
            r matches Ok(cells) && cells@ == cells_of(self.remaining()).flatten(),
    {
        Ok(collect_array(self))
    }
}

/// Drops the windows whose label is among `names`, and keeps the others in
/// their order. A name that labels no window is ignored.
pub struct Remove<I> {
    pub data: I,
    pub names: Vec<String>,
    pub other: Vec<String>,
    pub axis: UtahAxis,
}

impl<I> Remove<I> {
    /// Removes from `df` the windows labelled by one of `names`; `other`
    /// holds the labels of the axis that `df` keeps fixed.
    pub fn new(df: I, names: Vec<String>, other: Vec<String>, axis: UtahAxis) -> (s: Remove<I>)
        ensures
            s.data == df,
            s.names == names,
            s.other == other,
            s.axis == axis,
    {
        Remove { data: df, names, other, axis }
    }
}

impl<'a, I: WindowStream<'a>> WindowStream<'a> for Remove<I> {
    open spec fn wf(&self) -> bool {
        self.data.wf()
    }

    open spec fn remaining(&self) -> Seq<WindowModel> {
        remove_windows(self.data.remaining(), self.names.deep_view())
    }

    fn next(&mut self) -> (w: Option<Window<'a>>)
        ensures
            final(self).names == old(self).names,
            final(self).other == old(self).other,
            final(self).axis == old(self).axis,
    {
        let ghost names = self.names.deep_view();
        let ghost keep = |w: WindowModel| !names.contains(w.0);
        loop
            invariant
                self.data.wf(),
                self.names == old(self).names,
                self.other == old(self).other,
                self.axis == old(self).axis,
                names == self.names.deep_view(),
                keep == |w: WindowModel| !names.contains(w.0),
                self.data.remaining().filter(keep) == old(self).data.remaining().filter(keep),
            decreases self.data.remaining().len(),
        {
            let ghost before = self.data.remaining();
            match self.data.next() {
                Some(w) => {
                    proof {
                        lemma_filter_head(before, keep);
                    }
                    if !contains_label(&self.names, &w.0) {
                        proof {
                            assert((seq![before[0]] + before.skip(1).filter(keep)).skip(1)
                                =~= before.skip(1).filter(keep));
                        }
                        return Some(w);
                    }
                    proof {
                        assert(Seq::<WindowModel>::empty() + before.skip(1).filter(keep)
                            =~= before.skip(1).filter(keep));
                    }
                },
                None => {
                    proof {
                        lemma_filter_empty(before, keep);
                    }
                    return None;
                },
            }
        }
    }
}

impl<'a, I: WindowStream<'a>> Remove<I> {
    /// Drains what is left into a frame.
    pub fn as_df(self) -> (r: Result<DataFrame, UtahError>)
        requires
            self.wf(),
        ensures
            frame_result_is(
                r,
                assemble(
                    labels_of(self.remaining()),
                    cells_of(self.remaining()),
                    self.other.deep_view(),
                    self.axis,
                ),
            ),
    {
        let other = copy_labels(&self.other);
        let axis = self.axis;
        collect_frame(self, other, axis)
    }

    /// Drains what is left into a bare matrix.
    pub fn as_matrix(self) -> (r: Result<Matrix, UtahError>)
        requires
            self.wf(),
        ensures
            matrix_result_is(
                r,
                assemble_matrix(cells_of(self.remaining()), self.other.len() as nat, self.axis),
            ),
    {
        let width = self.other.len();
        let axis = self.axis;
        collect_matrix(self, width, axis)
    }

    /// Drains what is left into one flat vector.
    pub fn as_array(self) -> (r: Result<Vec<i64>, UtahError>)
        requires
            self.wf(),
        ensures
            r matches Ok(cells) && cells@ == cells_of(self.remaining()).flatten(),
    {
        Ok(collect_array(self))
    }
}

/// Hands out the windows of a traversal, then one more window.
pub struct Append<'a, I> {
    pub data: I,
    pub new_data: Option<Window<'a>>,
    pub other: Vec<String>,
    pub axis: UtahAxis,
}

impl<'a, I> Append<'a, I> {
    /// Appends to `df` a window labelled `name` that shows `data`; `other`
    /// holds the labels of the axis that `df` keeps fixed.
    pub fn new(
        df: I,
        name: String,
        data: SliceView<'a>,
        other: Vec<String>,
        axis: UtahAxis,
    ) -> (s: Append<'a, I>)
        ensures
            s.data == df,
            s.new_data == Some((name, data)),
            s.other == other,
            s.axis == axis,
    {
        Append { data: df, new_data: Some((name, data)), other, axis }
    }
}

impl<'a, I: WindowStream<'a>> WindowStream<'a> for Append<'a, I> {
    open spec fn wf(&self) -> bool {
        self.data.wf()
    }

    open spec fn remaining(&self) -> Seq<WindowModel> {
        append_windows(self.data.remaining(), window_model(self.new_data))
    }

    fn next(&mut self) -> (w: Option<Window<'a>>)
        ensures
            final(self).other == old(self).other,
            final(self).axis == old(self).axis,
    {
        let ghost before = self.data.remaining();
        match self.data.next() {
            Some(w) => {
                proof {
                    assert(self.remaining() =~= old(self).remaining().skip(1));
                }
                Some(w)
            },
            None => {
                let extra = self.new_data.take();
                proof {
                    if extra is Some {
                        assert(self.remaining() =~= old(self).remaining().skip(1));
                    }
                }
                extra
            },
        }
    }
}

impl<'a, I: WindowStream<'a>> Append<'a, I> {
    /// Drains the traversal and the appended window into a frame.
    pub fn as_df(self) -> (r: Result<DataFrame, UtahError>)
        requires
            self.wf(),
        ensures
            frame_result_is(
                r,
                assemble(
                    labels_of(self.remaining()),
                    cells_of(self.remaining()),
                    self.other.deep_view(),
                    self.axis,
                ),
            ),
    {
        let other = copy_labels(&self.other);
        let axis = self.axis;
        collect_frame(self, other, axis)
    }

    /// Drains the traversal and the appended window into a bare matrix.
    pub fn as_matrix(self) -> (r: Result<Matrix, UtahError>)
        requires
            self.wf(),
        ensures
            matrix_result_is(
                r,
                assemble_matrix(cells_of(self.remaining()), self.other.len() as nat, self.axis),
            ),
    {
        let width = self.other.len();
        let axis = self.axis;
        collect_matrix(self, width, axis)
    }

    /// Drains the traversal and the appended window into one flat vector.
    pub fn as_array(self) -> (r: Result<Vec<i64>, UtahError>)
        requires
            self.wf(),
        ensures
            r matches Ok(cells) && cells@ == cells_of(self.remaining()).flatten(),
    {
        Ok(collect_array(self))
    }
}

} // verus!
