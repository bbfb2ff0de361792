//! The interface of a lazy sequence of windows.

use vstd::prelude::*;
use crate::matrix::SliceView;
use crate::model::{stepped, WindowModel};

verus! {

/// A window: a label, and a view of the cells that it labels.
pub type Window<'a> = (String, SliceView<'a>);

/// What an optional window carries.
pub open spec fn window_model(w: Option<Window<'_>>) -> Option<WindowModel> {
    match w {
        Some(w) => Some((w.0@, w.1@)),
        None => None,
    }
}

/// A lazy, ordered, single-pass sequence of windows. `next` hands out the
/// windows of `remaining` one by one, front first, and does no other work.
pub trait WindowStream<'a>: Sized {
    /// The invariant of the sequence.
    spec fn wf(&self) -> bool;

    /// The windows that are still to be handed out, in order.
    spec fn remaining(&self) -> Seq<WindowModel>;

    /// Hands out the next window, or `None` when none is left.
    fn next(&mut self) -> (w: Option<Window<'a>>)
        requires
            old(self).wf(),
        ensures
            final(self).wf(),
            stepped(old(self).remaining(), window_model(w), final(self).remaining()),
    ;
}

} // verus!
