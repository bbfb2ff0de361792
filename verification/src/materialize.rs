//! Materialization: draining a lazy sequence once and building a frame, a
//! bare matrix or a flat vector from what it yielded.

use vstd::prelude::*;
use crate::dataframe::{frame_result_is, DataFrame};
use crate::matrix::{lemma_row_bounds, rectangular, rows_of, Matrix};
use crate::model::{
    assemble,
    assemble_matrix,
    cells_of,
    labels_of,
    WindowModel,
};
use crate::util::error::UtahError;
use crate::util::traits::WindowStream;
use crate::util::types::UtahAxis;

verus! {

/// A window that owns a copy of its cells.
pub type OwnedWindow = (String, Vec<i64>);

/// What a run of owned windows carries.
pub open spec fn owned_model(windows: Seq<OwnedWindow>) -> Seq<WindowModel> {
    windows.map_values(|w: OwnedWindow| (w.0@, w.1@))
}

/// The result `r` is what the model `expected` says: the same error, or a
/// matrix with the expected rows and number of columns.
pub open spec fn matrix_result_is(r: Result<Matrix, UtahError>, expected: Result<
    (Seq<Seq<i64>>, nat),
    UtahError,
>) -> bool {
    match r {
        Ok(m) => expected == Ok::<(Seq<Seq<i64>>, nat), UtahError>((m@, m.width())),
        Err(e) => expected == Err::<(Seq<Seq<i64>>, nat), UtahError>(e),
    }
}

/// Rows of equal length, laid end to end and cut again, are the same rows.
pub proof fn lemma_rows_of_flatten(rows: Seq<Seq<i64>>, ncols: nat)
    requires
        rectangular(rows, ncols),
    ensures
        rows.flatten().len() == rows.len() * ncols,
        rows_of(rows.flatten(), rows.len(), ncols) == rows,
    decreases rows.len(),
{
    if rows.len() == 0 {
        assert(rows_of(rows.flatten(), rows.len(), ncols) =~= rows);
    } else {
        let rest = rows.drop_first();
        lemma_rows_of_flatten(rest, ncols);
        let flat = rows.flatten();
        assert(flat == rows.first() + rest.flatten());
        assert(rows.len() * ncols == ncols + rest.len() * ncols) by (nonlinear_arith)
            requires
                rows.len() == rest.len() + 1,
        ;
        let cut = rows_of(flat, rows.len(), ncols);
        assert forall|i: int| 0 <= i < rows.len() implies #[trigger] cut[i] == rows[i] by {
            lemma_row_bounds(i, rows.len(), ncols);
            if i == 0 {
                assert(cut[0] =~= rows[0]);
            } else {
                lemma_row_bounds(i - 1, rest.len(), ncols);
                assert(i * ncols == (i - 1) * ncols + ncols) by (nonlinear_arith);
                assert(rows_of(rest.flatten(), rest.len(), ncols)[i - 1] == rest[i - 1]);
                assert(cut[i] =~= rest.flatten().subrange(
                    (i - 1) * ncols,
                    (i - 1) * ncols + ncols,
                ));
            }
        }
        assert(cut =~= rows);
    }
}

/// Splits owned windows into their labels and their cells laid end to end,
/// and tells whether each has `width` cells.
fn split_windows(windows: &Vec<OwnedWindow>, width: usize) -> (r: (Vec<String>, Vec<i64>, bool))
    ensures
        r.0.deep_view() == labels_of(owned_model(windows@)),
        r.1@ == cells_of(owned_model(windows@)).flatten(),
        r.2 == rectangular(cells_of(owned_model(windows@)), width as nat),
{
    let ghost lanes = cells_of(owned_model(windows@));
    let mut labels: Vec<String> = Vec::new();
    let mut flat: Vec<i64> = Vec::new();
    let mut even = true;
    let mut i: usize = 0;
    assert(lanes.take(0) =~= Seq::<Seq<i64>>::empty());
    while i < windows.len()
        invariant
            i <= windows.len(),
            lanes == cells_of(owned_model(windows@)),
            labels.len() == i,
            forall|k: int| 0 <= k < i ==> (#[trigger] labels[k])@ == windows[k].0@,
            flat@ == lanes.take(i as int).flatten(),
            even == rectangular(lanes.take(i as int), width as nat),
        decreases windows.len() - i,
    {
        let ghost base = flat@;
        let lane = &windows[i].1;
        labels.push(windows[i].0.clone());
        if lane.len() != width {
            even = false;
        }
        let mut j: usize = 0;
        while j < lane.len()
            invariant
                j <= lane.len(),
                flat@ == base + lane@.take(j as int),
            decreases lane.len() - j,
        {
            flat.push(lane[j]);
            assert(lane@.take(j + 1) =~= lane@.take(j as int).push(lane@[j as int]));
            j = j + 1;
        }
        proof {
            assert(lane@.take(lane.len() as int) =~= lane@);
            assert(lanes[i as int] == lane@);
            assert(lanes.take(i + 1) =~= lanes.take(i as int).push(lanes[i as int]));
            lanes.take(i as int).lemma_flatten_push(lanes[i as int]);
            if rectangular(lanes.take(i + 1), width as nat) {
                assert(lanes.take(i + 1)[i as int].len() == width);
                assert forall|k: int| 0 <= k < i implies (#[trigger] lanes.take(i as int)[k]).len()
                    == width by {
                    assert(lanes.take(i + 1)[k] == lanes.take(i as int)[k]);
                }
            }
            if rectangular(lanes.take(i as int), width as nat) && lane.len() == width {
                assert forall|k: int| 0 <= k < i + 1 implies (#[trigger] lanes.take(i + 1)[k]).len()
                    == width by {
                    if k < i {
                        assert(lanes.take(i + 1)[k] == lanes.take(i as int)[k]);
                    }
                }
            }
        }
        i = i + 1;
    }
    proof {
        assert(lanes.take(windows.len() as int) =~= lanes);
        assert(labels.deep_view() =~= labels_of(owned_model(windows@)));
    }
    (labels, flat, even)
}

/// The cells of the windows, laid end to end in the order of the windows.
pub fn array_from_windows(windows: &Vec<OwnedWindow>) -> (cells: Vec<i64>)
    ensures
        cells@ == cells_of(owned_model(windows@)).flatten(),
{
    split_windows(windows, 0).1
}

/// The matrix of `count` lanes of `width` cells along `axis`, `flat` being
/// the cells of the lanes laid end to end and `even` telling whether each
/// lane has `width` cells.
fn matrix_from_cells(
    flat: Vec<i64>,
    even: bool,
    count: usize,
    width: usize,
    axis: UtahAxis,
    Ghost(lanes): Ghost<Seq<Seq<i64>>>,
) -> (r: Result<Matrix, UtahError>)
    requires
        flat@ == lanes.flatten(),
        even == rectangular(lanes, width as nat),
        count == lanes.len(),
    ensures
        matrix_result_is(r, assemble_matrix(lanes, width as nat, axis)),
{
    if !even {
        return Err(UtahError::ShapeMismatch);
    }
    proof {
        lemma_rows_of_flatten(lanes, width as nat);
    }
    let m = Matrix::from_shape_vec(count, width, flat)?;
    match axis {
        UtahAxis::Row => Ok(m),
        UtahAxis::Column => Ok(m.transposed()),
    }
}

/// The matrix that the windows materialize to along `axis`, each window
/// being `width` cells long.
pub fn matrix_from_windows(windows: &Vec<OwnedWindow>, width: usize, axis: UtahAxis) -> (r: Result<
    Matrix,
    UtahError,
>)
    ensures
        matrix_result_is(
            r,
            assemble_matrix(cells_of(owned_model(windows@)), width as nat, axis),
        ),
{
    let (_, flat, even) = split_windows(windows, width);
    matrix_from_cells(
        flat,
        even,
        windows.len(),
        width,
        axis,
        Ghost(cells_of(owned_model(windows@))),
    )
}

/// The frame that the windows materialize to along `axis`, `other` being the
/// labels of the axis that was kept fixed.
pub fn frame_from_windows(windows: &Vec<OwnedWindow>, other: Vec<String>, axis: UtahAxis) -> (r:
    Result<DataFrame, UtahError>)
    ensures
        frame_result_is(
            r,
            assemble(
                labels_of(owned_model(windows@)),
                cells_of(owned_model(windows@)),
                other.deep_view(),
                axis,
            ),
        ),
{
    let (labels, flat, even) = split_windows(windows, other.len());
    let m = matrix_from_cells(
        flat,
        even,
        windows.len(),
        other.len(),
        axis,
        Ghost(cells_of(owned_model(windows@))),
    )?;
    match axis {
        UtahAxis::Row => DataFrame::from_parts(m, other, labels),
        UtahAxis::Column => DataFrame::from_parts(m, labels, other),
    }
}

/// Drains `src`, copying each window that it hands out.
pub fn drain_windows<'a, I: WindowStream<'a>>(src: &mut I) -> (windows: Vec<OwnedWindow>)
    requires
        old(src).wf(),
    ensures
        final(src).wf(),
        final(src).remaining().len() == 0,
        owned_model(windows@) == old(src).remaining(),
{
    let ghost start = src.remaining();
    let mut windows: Vec<OwnedWindow> = Vec::new();
    assert(owned_model(windows@) + src.remaining() =~= start);
    loop
        invariant
            src.wf(),
            start == old(src).remaining(),
            owned_model(windows@) + src.remaining() == start,
        decreases src.remaining().len(),
    {
        let ghost before = src.remaining();
        let ghost done = windows@;
        match src.next() {
            Some((label, cells)) => {
                let copy = cells.to_vec();
                windows.push((label, copy));
                proof {
                    assert(owned_model(windows@) =~= owned_model(done).push(before[0]));
                    assert(owned_model(windows@) + src.remaining() =~= owned_model(done) + before);
                }
            },
            None => {
                proof {
                    assert(owned_model(windows@) + src.remaining() =~= owned_model(windows@));
                }
                return windows;
            },
        }
    }
}

/// Drains `src` into a frame along `axis`, `other` being the labels of the
/// axis that the traversal keeps fixed.
pub fn collect_frame<'a, I: WindowStream<'a>>(src: I, other: Vec<String>, axis: UtahAxis) -> (r:
    Result<DataFrame, UtahError>)
    requires
        src.wf(),
    ensures
        frame_result_is(
            r,
            assemble(
                labels_of(src.remaining()),
                cells_of(src.remaining()),
                other.deep_view(),
                axis,
            ),
        ),
{
    let mut src = src;
    let windows = drain_windows(&mut src);
    frame_from_windows(&windows, other, axis)
}

/// Drains `src` into a bare matrix along `axis`, each window being `width`
/// cells long.
pub fn collect_matrix<'a, I: WindowStream<'a>>(src: I, width: usize, axis: UtahAxis) -> (r: Result<
    Matrix,
    UtahError,
>)
    requires
        src.wf(),
    ensures
        matrix_result_is(r, assemble_matrix(cells_of(src.remaining()), width as nat, axis)),
{
    let mut src = src;
    let windows = drain_windows(&mut src);
    matrix_from_windows(&windows, width, axis)
}

/// Drains `src` into one flat vector: the cells of each window, in the
/// order of the windows.
pub fn collect_array<'a, I: WindowStream<'a>>(src: I) -> (cells: Vec<i64>)
    requires
        src.wf(),
    ensures
        cells@ == cells_of(src.remaining()).flatten(),
{
    let mut src = src;
    let windows = drain_windows(&mut src);
    array_from_windows(&windows)
}

} // verus!
