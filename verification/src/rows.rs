//! Cutting a flat run of cells into the row pieces that a window is made of.

use vstd::prelude::*;

verus! {

/// Divides an exclusive run of cells in two at `mid`.
///
/// Trusted: the body is `<[T]>::split_at_mut_checked`. The contract claims
/// what std documents of it: there is a result exactly when `mid` is at
/// most the length; the first half holds the cells `[0, mid)`, the second
/// `[mid, len)`; and, halves of a slice being slices over the same cells,
/// writing through them changes cells but neither half's length, so that
/// the run ends as the first half's final cells followed by the second's.
#[verifier::external_body]
pub(crate) fn halve<'a, T>(run: &'a mut [T], mid: usize) -> (r: Option<(&'a mut [T], &'a mut [T])>)
    ensures
        r.is_some() == (mid <= old(run)@.len()),
        r.is_some() ==> r.unwrap().0@ == old(run)@.subrange(0, mid as int),
        r.is_some() ==> r.unwrap().1@ == old(run)@.subrange(mid as int, old(run)@.len() as int),
        r.is_some() ==> final(r.unwrap().0)@.len() == mid,
        r.is_some() ==> final(r.unwrap().1)@.len() == old(run)@.len() - mid,
        r.is_some() ==> final(run)@ == final(r.unwrap().0)@ + final(r.unwrap().1)@,
        r.is_none() ==> final(run)@ == old(run)@,
{
    run.split_at_mut_checked(mid)
}

/// Divides an exclusive run of cells in two at `mid`, which lies in it.
pub(crate) fn split<'a, T>(run: &'a mut [T], mid: usize) -> (r: (&'a mut [T], &'a mut [T]))
    requires
        mid <= old(run)@.len(),
    ensures
        r.0@ == old(run)@.subrange(0, mid as int),
        r.1@ == old(run)@.subrange(mid as int, old(run)@.len() as int),
        final(r.0)@.len() == mid,
        final(r.1)@.len() == old(run)@.len() - mid,
        final(run)@ == final(r.0)@ + final(r.1)@,
{
    match halve(run, mid) {
        Some(pair) => pair,
        None => vstd::pervasive::unreached(),
    }
}

/// Cuts a flat row-major run of `width * height` cells into its rows.
pub(crate) fn chunk<'a, T>(flat: &'a mut [T], width: usize, height: usize) -> (rows: Vec<&'a mut [T]>)
    requires
        old(flat)@.len() == width * height,
    ensures
        rows@.len() == height,
        final(flat)@.len() == width * height,
        forall|j: int| 0 <= j < height ==> (#[trigger] rows@[j]@).len() == width,
        forall|j: int| 0 <= j < height ==> (#[trigger] final(rows@[j])@).len() == width,
        forall|i: int, j: int| 0 <= i < width && 0 <= j < height
            ==> rows@[j]@[i] == old(flat)@[j * width + i],
        forall|i: int, j: int| 0 <= i < width && 0 <= j < height
            ==> final(flat)@[j * width + i] == final(rows@[j])@[i],
{
    let mut rows: Vec<&'a mut [T]> = Vec::new();
    let ghost end = final(flat)@;
    // Cutting nothing off first fixes the length that the run ends with.
    let (_, mut rest) = split(flat, 0);
    let mut j: usize = 0;
    let ghost mut off: int = 0;
    while j < height
        invariant
            j <= height,
            off == j * width,
            rows@.len() == j,
            old(flat)@.len() == width * height,
            end.len() == width * height,
            rest@ == old(flat)@.subrange(off, width * height),
            final(rest)@.len() == width * height - off,
            forall|k: int| 0 <= k < j ==> (#[trigger] rows@[k]@).len() == width,
            forall|k: int| 0 <= k < j ==> (#[trigger] final(rows@[k])@).len() == width,
            forall|i: int, k: int| 0 <= i < width && 0 <= k < j
                ==> rows@[k]@[i] == old(flat)@[k * width + i],
            forall|i: int, k: int| 0 <= i < width && 0 <= k < j
                ==> end[k * width + i] == final(rows@[k])@[i],
            forall|i: int| 0 <= i < width * height - off
                ==> end[off + i] == final(rest)@[i],
        decreases height - j,
    {
        proof {
            assert((j + 1) * width == j * width + width) by (nonlinear_arith);
            assert((j + 1) * width <= height * width) by (nonlinear_arith)
                requires
                    j + 1 <= height,
            ;
            assert(height * width == width * height) by (nonlinear_arith);
        }
        let ghost before = final(rest)@;
        let ghost done = rows@;
        let (row, tail) = split(rest, width);
        proof {
            assert forall|i: int| 0 <= i < width * height - (off + width) implies
                end[off + width + i] == final(tail)@[i] by {
                assert(end[off + (width + i)] == before[width + i]);
            }
            assert forall|i: int| 0 <= i < width implies
                end[off + i] == final(row)@[i] && row@[i] == old(flat)@[off + i] by {
                assert(end[off + i] == before[i]);
            }
        }
        rows.push(row);
        rest = tail;
        proof {
            assert forall|i: int, k: int| 0 <= i < width && 0 <= k < j + 1 implies
                end[k * width + i] == final(rows@[k])@[i]
                && rows@[k]@[i] == old(flat)@[k * width + i] by {
                if k < j {
                    assert(rows@[k] == done[k]);
                }
            }
            off = off + width;
        }
        j += 1;
    }
    rows
}

/// Borrows every row of an exclusive set of rows anew, for a shorter time.
/// When the new rows are given up, the old ones hold what was last written
/// through the new ones.
pub(crate) fn reborrow<'b, 'a, T>(rows: &'b mut Vec<&'a mut [T]>) -> (out: Vec<&'b mut [T]>)
    ensures
        out@.len() == old(rows)@.len(),
        final(rows)@.len() == old(rows)@.len(),
        forall|j: int| 0 <= j < out@.len() ==> (out@[j])@ == old(rows)@[j]@,
        forall|j: int| 0 <= j < out@.len() ==> (final(out@[j])@).len() == old(rows)@[j]@.len(),
        forall|j: int| 0 <= j < out@.len() ==> (final(rows)@[j])@ == final(out@[j])@,
        forall|j: int| 0 <= j < out@.len() ==> final(final(rows)@[j])@ == final(old(rows)@[j])@,
{
    let n = rows.len();
    let ghost end = final(rows)@;
    let (_, mut rest) = split(rows.as_mut_slice(), 0);
    let mut out: Vec<&'b mut [T]> = Vec::new();
    let mut j: usize = 0;
    while j < n
        invariant
            j <= n,
            n == old(rows)@.len(),
            end.len() == n,
            out@.len() == j,
            rest@ == old(rows)@.subrange(j as int, n as int),
            final(rest)@.len() == n - j,
            forall|i: int| 0 <= i < n - j ==> end[j + i] == final(rest)@[i],
            forall|k: int| 0 <= k < j ==> (out@[k])@ == old(rows)@[k]@,
            forall|k: int| 0 <= k < j ==> (final(out@[k])@).len() == old(rows)@[k]@.len(),
            forall|k: int| 0 <= k < j ==> (end[k])@ == final(out@[k])@,
            forall|k: int| 0 <= k < j ==> final(end[k])@ == final(old(rows)@[k])@,
        decreases n - j,
    {
        let ghost before = final(rest)@;
        let ghost done = out@;
        let (head, tail) = split(rest, 1);
        match head.first_mut() {
            Some(row) => {
                // Cutting nothing off fixes the length that the row ends with.
                let (_, whole) = split(&mut **row, 0);
                out.push(whole);
            },
            None => {},
        }
        rest = tail;
        proof {
            assert(end[j + 0] == before[0]);
            assert forall|i: int| 0 <= i < n - (j + 1) implies end[j + 1 + i] == final(rest)@[i] by {
                assert(end[j + (1 + i)] == before[1 + i]);
            }
            assert forall|k: int| 0 <= k < j implies out@[k] == done[k] by {}
        }
        j += 1;
    }
    out
}

/// The same items, last first.
pub(crate) fn reversed<R>(items: Vec<R>) -> (out: Vec<R>)
    ensures
        out@.len() == items@.len(),
        forall|j: int| 0 <= j < out@.len() ==> out@[j] == items@[items@.len() - 1 - j],
{
    let mut items = items;
    let ghost all = items@;
    let mut out: Vec<R> = Vec::new();
    while items.len() > 0
        invariant
            out@.len() + items@.len() == all.len(),
            items@ == all.subrange(0, items@.len() as int),
            forall|j: int| 0 <= j < out@.len() ==> out@[j] == all[all.len() - 1 - j],
        decreases items@.len(),
    {
        match items.pop() {
            Some(item) => {
                out.push(item);
            },
            None => {},
        }
    }
    out
}

/// Divides every row of an exclusive set of rows at column `x`: the parts
/// left of it, and the parts from it on.
pub(crate) fn cut_columns<'a, T>(rows: Vec<&'a mut [T]>, x: usize) -> (r: (Vec<&'a mut [T]>, Vec<&'a mut [T]>))
    requires
        forall|j: int| 0 <= j < rows@.len() ==> x <= rows@[j]@.len(),
    ensures
        r.0@.len() == rows@.len(),
        r.1@.len() == rows@.len(),
        forall|j: int| 0 <= j < rows@.len() ==> r.0@[j]@ == rows@[j]@.subrange(0, x as int),
        forall|j: int| 0 <= j < rows@.len() ==> r.1@[j]@ == rows@[j]@.subrange(x as int, rows@[j]@.len() as int),
        forall|j: int| 0 <= j < rows@.len() ==> final(r.0@[j])@.len() == x,
        forall|j: int| 0 <= j < rows@.len() ==> final(r.1@[j])@.len() == rows@[j]@.len() - x,
        forall|j: int| 0 <= j < rows@.len() ==> final(rows@[j])@ == final(r.0@[j])@ + final(r.1@[j])@,
{
    let ghost all = rows@;
    let mut pending = reversed(rows);
    let n = pending.len();
    let mut lefts: Vec<&'a mut [T]> = Vec::new();
    let mut rights: Vec<&'a mut [T]> = Vec::new();
    let mut j: usize = 0;
    while j < n
        invariant
            j <= n,
            n == all.len(),
            pending@.len() == n - j,
            lefts@.len() == j,
            rights@.len() == j,
            forall|k: int| 0 <= k < all.len() ==> x <= all[k]@.len(),
            forall|k: int| 0 <= k < n - j ==> pending@[k] == all[n - 1 - k],
            forall|k: int| 0 <= k < j ==> lefts@[k]@ == all[k]@.subrange(0, x as int),
            forall|k: int| 0 <= k < j ==> rights@[k]@ == all[k]@.subrange(x as int, all[k]@.len() as int),
            forall|k: int| 0 <= k < j ==> final(lefts@[k])@.len() == x,
            forall|k: int| 0 <= k < j ==> final(rights@[k])@.len() == all[k]@.len() - x,
            forall|k: int| 0 <= k < j ==> final(all[k])@ == final(lefts@[k])@ + final(rights@[k])@,
        decreases n - j,
    {
        let ghost lefts_done = lefts@;
        let ghost rights_done = rights@;
        match pending.pop() {
            Some(row) => {
                assert(row == all[j as int]);
                let (left, right) = split(row, x);
                lefts.push(left);
                rights.push(right);
            },
            None => {},
        }
        proof {
            assert forall|k: int| 0 <= k < j implies lefts@[k] == lefts_done[k] && rights@[k] == rights_done[k] by {}
        }
        j += 1;
    }
    (lefts, rights)
}

/// Divides a set of rows at row `y`: the rows above it, and the rows from
/// it on.
pub(crate) fn cut_rows<R>(rows: Vec<R>, y: usize) -> (r: (Vec<R>, Vec<R>))
    requires
        y <= rows@.len(),
    ensures
        r.0@ == rows@.subrange(0, y as int),
        r.1@ == rows@.subrange(y as int, rows@.len() as int),
{
    let mut upper = rows;
    let lower = upper.split_off(y);
    (upper, lower)
}

/// The rows of a rectangle of a flat row-major run whose rows are
/// `stride` cells long: `height` rows from row `y` on, of each the `width`
/// cells from column `x` on.
pub(crate) fn window<'a, T>(
    flat: &'a [T],
    stride: usize,
    x: usize,
    y: usize,
    width: usize,
    height: usize,
) -> (rows: Vec<&'a [T]>)
    requires
        x + width <= stride,
        (y + height) * stride <= flat@.len(),
    ensures
        rows@.len() == height,
        forall|j: int| 0 <= j < height ==> rows@[j]@.len() == width,
        forall|i: int, j: int| 0 <= i < width && 0 <= j < height
            ==> rows@[j]@[i] == flat@[(y + j) * stride + x + i],
{
    let mut rows: Vec<&'a [T]> = Vec::new();
    proof {
        assert(y * stride <= (y + height) * stride) by (nonlinear_arith);
        assert(flat@.len() == flat.len());
    }
    let mut off: usize = y * stride;
    let mut j: usize = 0;
    while j < height
        invariant
            j <= height,
            x + width <= stride,
            (y + height) * stride <= flat@.len(),
            flat@.len() <= usize::MAX,
            off == (y + j) * stride,
            rows@.len() == j,
            forall|k: int| 0 <= k < j ==> rows@[k]@.len() == width,
            forall|i: int, k: int| 0 <= i < width && 0 <= k < j
                ==> rows@[k]@[i] == flat@[(y + k) * stride + x + i],
        decreases height - j,
    {
        proof {
            assert((y + j + 1) * stride == (y + j) * stride + stride) by (nonlinear_arith);
            assert((y + j + 1) * stride <= (y + height) * stride) by (nonlinear_arith)
                requires
                    j + 1 <= height,
            ;
        }
        let ghost done = rows@;
        let row = vstd::slice::slice_subrange(flat, off + x, off + x + width);
        rows.push(row);
        proof {
            assert forall|i: int, k: int| 0 <= i < width && 0 <= k < j + 1 implies rows@[k]@[i]
                == flat@[(y + k) * stride + x + i] by {
                if k < j {
                    assert(rows@[k] == done[k]);
                }
            }
        }
        off = off + stride;
        j += 1;
    }
    rows
}

} // verus!
