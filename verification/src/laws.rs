//! What holds of reading and writing, of windows cut from windows, of
//! splits, and of equality between windows.

use vstd::prelude::*;
use vstd::std_specs::cmp::PartialEqSpec;

use crate::grid::{lemma_index_apart, lemma_index_in_range, VecVec};
use crate::view::{Capability, Slice};

verus! {

/// A grid whose every cell is a clone of one value reads as that: at every
/// place within it there is a clone of the value to read, and at every
/// place without there is nothing.
pub proof fn lemma_filled_grid_reads_the_value<T: Clone>(grid: &VecVec<T>, value: T)
    requires
        forall|x: int, y: int| 0 <= x < grid.width() && 0 <= y < grid.height()
            ==> cloned(value, #[trigger] grid.at(x, y)),
    ensures
        forall|x: int, y: int| 0 <= x < grid.width() && 0 <= y < grid.height()
            ==> (#[trigger] grid.cell(x, y)).is_some() && cloned(value, *grid.cell(x, y).unwrap()),
        forall|x: int, y: int| !(0 <= x < grid.width() && 0 <= y < grid.height())
            ==> (#[trigger] grid.cell(x, y)).is_none(),
{
    assert forall|x: int, y: int| 0 <= x < grid.width() && 0 <= y < grid.height() implies
        (#[trigger] grid.cell(x, y)).is_some() && cloned(value, *grid.cell(x, y).unwrap()) by {
        assert(cloned(value, grid.at(x, y)));
    }
}

/// What is written to a cell is read back from it, and every other place
/// reads as before: where `after` is `before` with `value` written at
/// `(x, y)`, reading `(x, y)` gives `value` and reading elsewhere gives
/// what `before` gives.
pub proof fn lemma_written_cell_is_read_back<T>(before: &VecVec<T>, after: &VecVec<T>, x: int, y: int, value: T)
    requires
        before.wf(),
        0 <= x < before.width(),
        0 <= y < before.height(),
        after.width() == before.width(),
        after.height() == before.height(),
        after.cells() == before.cells().update(y * before.width() + x, value),
    ensures
        after.wf(),
        after.cell(x, y) == Some(&value),
        forall|i: int, j: int| i != x || j != y ==> #[trigger] after.cell(i, j) == before.cell(i, j),
{
    lemma_index_in_range(x, y, before.width() as int, before.height() as int);
    assert forall|i: int, j: int| i != x || j != y implies #[trigger] after.cell(i, j) == before.cell(i, j) by {
        if 0 <= i < before.width() && 0 <= j < before.height() {
            lemma_index_in_range(i, j, before.width() as int, before.height() as int);
            if j * before.width() + i == y * before.width() + x {
                lemma_index_apart(i, j, x, y, before.width() as int);
            }
        }
    }
}

/// Writes to two cells come to the same in either order: every place
/// reads the same after both.
pub proof fn lemma_writes_in_either_order<T>(
    start: &VecVec<T>,
    one_way: &VecVec<T>,
    other_way: &VecVec<T>,
    x1: int,
    y1: int,
    value1: T,
    x2: int,
    y2: int,
    value2: T,
)
    requires
        start.wf(),
        0 <= x1 < start.width() && 0 <= y1 < start.height(),
        0 <= x2 < start.width() && 0 <= y2 < start.height(),
        x1 != x2 || y1 != y2,
        one_way.width() == start.width() && one_way.height() == start.height(),
        other_way.width() == start.width() && other_way.height() == start.height(),
        one_way.cells()
            == start.cells().update(y1 * start.width() + x1, value1).update(y2 * start.width() + x2, value2),
        other_way.cells()
            == start.cells().update(y2 * start.width() + x2, value2).update(y1 * start.width() + x1, value1),
    ensures
        one_way.cells() == other_way.cells(),
        forall|i: int, j: int| #[trigger] one_way.cell(i, j) == other_way.cell(i, j),
        one_way.cell(x1, y1) == Some(&value1),
        one_way.cell(x2, y2) == Some(&value2),
{
    lemma_index_in_range(x1, y1, start.width() as int, start.height() as int);
    lemma_index_in_range(x2, y2, start.width() as int, start.height() as int);
    if y1 * start.width() + x1 == y2 * start.width() + x2 {
        lemma_index_apart(x1, y1, x2, y2, start.width() as int);
    }
    assert(one_way.cells() =~= other_way.cells());
}

/// Equality looks at extent and cells alone: windows as wide and as high
/// as each other that hold the same rows are equal to the same windows,
/// wherever each lies, over whichever grid, and whatever it may do.
pub proof fn lemma_eq_by_content<
    T: PartialEq,
    A: Capability<T>,
    B: Capability<T>,
    C: Capability<T>,
    D: Capability<T>,
>(one: &Slice<T, A>, other: &Slice<T, B>, one_again: &Slice<T, C>, other_again: &Slice<T, D>)
    requires
        one.wf() && other.wf() && one_again.wf() && other_again.wf(),
        one.width() == one_again.width() && one.height() == one_again.height(),
        other.width() == other_again.width() && other.height() == other_again.height(),
        one.rows() == one_again.rows(),
        other.rows() == other_again.rows(),
    ensures
        one.eq_spec(other) == one_again.eq_spec(other_again),
{
    assert forall|x: int, y: int| 0 <= x < one.width() && 0 <= y < one.height() implies one.at(x, y)
        == one_again.at(x, y) by {
        assert(one.rows()[y][x] == one.at(x, y));
        assert(one_again.rows()[y][x] == one_again.at(x, y));
    }
    assert forall|x: int, y: int| 0 <= x < other.width() && 0 <= y < other.height() implies other.at(x, y)
        == other_again.at(x, y) by {
        assert(other.rows()[y][x] == other.at(x, y));
        assert(other_again.rows()[y][x] == other_again.at(x, y));
    }
    if one.eq_spec(other) {
        assert forall|x: int, y: int| 0 <= x < one_again.width() && 0 <= y < one_again.height() implies
            #[trigger] one_again.at(x, y).eq_spec(&other_again.at(x, y)) by {
            assert(one.at(x, y).eq_spec(&other.at(x, y)));
        }
    }
    if one_again.eq_spec(other_again) {
        assert forall|x: int, y: int| 0 <= x < one.width() && 0 <= y < one.height() implies
            #[trigger] one.at(x, y).eq_spec(&other.at(x, y)) by {
            assert(one_again.at(x, y).eq_spec(&other_again.at(x, y)));
        }
    }
}

/// A part of a part is a part: where `inner` shows `middle` from `(x2, y2)`
/// on and `middle` shows `outer` from `(x1, y1)` on, `inner` shows `outer`
/// from `(x1 + x2, y1 + y2)` on.
pub proof fn lemma_part_of_part<T, A: Capability<T>, B: Capability<T>, C: Capability<T>>(
    outer: &Slice<T, A>,
    middle: &Slice<T, B>,
    inner: &Slice<T, C>,
    x1: int,
    y1: int,
    x2: int,
    y2: int,
)
    requires
        middle.is_part_of(outer, x1, y1),
        inner.is_part_of(middle, x2, y2),
    ensures
        inner.is_part_of(outer, x1 + x2, y1 + y2),
{
    assert forall|i: int, j: int| 0 <= i < inner.width() && 0 <= j < inner.height() implies inner.at(i, j)
        == outer.at(x1 + x2 + i, y1 + y2 + j) by {
        assert(inner.at(i, j) == middle.at(x2 + i, y2 + j));
        assert(middle.at(x2 + i, y2 + j) == outer.at(x1 + (x2 + i), y1 + (y2 + j)));
    }
}

/// The two halves of a window split between two rows are apart and make
/// up the window: each cell that the window reaches is reached by exactly
/// one of them, and neither reaches any other.
pub proof fn lemma_hsplit_partitions<T, M: Capability<T>, A: Capability<T>, B: Capability<T>>(
    whole: &Slice<T, M>,
    first: &Slice<T, A>,
    rest: &Slice<T, B>,
)
    requires
        first.is_part_of(whole, 0, 0),
        rest.is_part_of(whole, 0, first.height() as int),
        first.width() == whole.width(),
        rest.width() == whole.width(),
        first.height() + rest.height() == whole.height(),
    ensures
        forall|i: int, j: int| whole.covers(i, j) <==> first.covers(i, j) || rest.covers(i, j),
        forall|i: int, j: int| !(first.covers(i, j) && rest.covers(i, j)),
{
}

/// The two halves of a window split between two columns are apart and
/// make up the window: each cell that the window reaches is reached by
/// exactly one of them, and neither reaches any other.
pub proof fn lemma_vsplit_partitions<T, M: Capability<T>, A: Capability<T>, B: Capability<T>>(
    whole: &Slice<T, M>,
    first: &Slice<T, A>,
    rest: &Slice<T, B>,
)
    requires
        first.is_part_of(whole, 0, 0),
        rest.is_part_of(whole, first.width() as int, 0),
        first.height() == whole.height(),
        rest.height() == whole.height(),
        first.width() + rest.width() == whole.width(),
    ensures
        forall|i: int, j: int| whole.covers(i, j) <==> first.covers(i, j) || rest.covers(i, j),
        forall|i: int, j: int| !(first.covers(i, j) && rest.covers(i, j)),
{
}

/// Stacking the upper part of a window on the lower part gives the window:
/// where `first` shows the rows of `whole` above some row and `rest` the
/// rows from that row on, both at full width, the rows of `first` followed
/// by those of `rest` are the rows of `whole`.
pub proof fn lemma_hsplit_recombines<T, M: Capability<T>, A: Capability<T>, B: Capability<T>>(
    whole: &Slice<T, M>,
    first: &Slice<T, A>,
    rest: &Slice<T, B>,
)
    requires
        first.is_part_of(whole, 0, 0),
        rest.is_part_of(whole, 0, first.height() as int),
        first.width() == whole.width(),
        rest.width() == whole.width(),
        first.height() + rest.height() == whole.height(),
    ensures
        first.rows() + rest.rows() == whole.rows(),
{
    let joined = first.rows() + rest.rows();
    assert(joined.len() == whole.rows().len());
    assert forall|j: int| 0 <= j < joined.len() implies joined[j] == whole.rows()[j] by {
        if j < first.height() {
            assert(joined[j] == first.rows()[j]);
            assert(first.rows()[j] =~= whole.rows()[j]);
        } else {
            assert(joined[j] == rest.rows()[j - first.height()]);
            assert(rest.rows()[j - first.height()] =~= whole.rows()[j]);
        }
    }
    assert(joined =~= whole.rows());
}

/// Setting the left part of a window beside the right part gives the
/// window: where `first` shows the columns of `whole` left of some column
/// and `rest` the columns from that column on, both at full height, each
/// row of `first` followed by the same row of `rest` is that row of `whole`.
pub proof fn lemma_vsplit_recombines<T, M: Capability<T>, A: Capability<T>, B: Capability<T>>(
    whole: &Slice<T, M>,
    first: &Slice<T, A>,
    rest: &Slice<T, B>,
)
    requires
        first.is_part_of(whole, 0, 0),
        rest.is_part_of(whole, first.width() as int, 0),
        first.height() == whole.height(),
        rest.height() == whole.height(),
        first.width() + rest.width() == whole.width(),
    ensures
        forall|j: int| 0 <= j < whole.height()
            ==> #[trigger] first.rows()[j] + rest.rows()[j] == whole.rows()[j],
{
    assert forall|j: int| 0 <= j < whole.height() implies
        #[trigger] first.rows()[j] + rest.rows()[j] == whole.rows()[j] by {
        let joined = first.rows()[j] + rest.rows()[j];
        assert(joined.len() == whole.rows()[j].len());
        assert forall|i: int| 0 <= i < joined.len() implies joined[i] == whole.rows()[j][i] by {
            if i < first.width() {
                assert(joined[i] == first.rows()[j][i]);
            } else {
                assert(joined[i] == rest.rows()[j][i - first.width()]);
            }
        }
        assert(joined =~= whole.rows()[j]);
    }
}

/// A part of a part of a grid is a part of the grid: where `inner` shows
/// `outer` from `(x2, y2)` on and `outer` shows `grid` from `(x1, y1)` on,
/// `inner` shows `grid` from `(x1 + x2, y1 + y2)` on.
pub proof fn lemma_part_of_part_of_grid<T, A: Capability<T>, B: Capability<T>>(
    grid: &VecVec<T>,
    outer: &Slice<T, A>,
    inner: &Slice<T, B>,
    x1: int,
    y1: int,
    x2: int,
    y2: int,
)
    requires
        outer.is_part_of_grid(grid, x1, y1),
        inner.is_part_of(outer, x2, y2),
    ensures
        inner.is_part_of_grid(grid, x1 + x2, y1 + y2),
{
    assert forall|i: int, j: int| 0 <= i < inner.width() && 0 <= j < inner.height() implies inner.at(i, j)
        == grid.at(x1 + x2 + i, y1 + y2 + j) by {
        assert(inner.at(i, j) == outer.at(x2 + i, y2 + j));
        assert(outer.at(x2 + i, y2 + j) == grid.at(x1 + (x2 + i), y1 + (y2 + j)));
    }
}

/// Two windows that show the same rectangle of a grid agree: they say the
/// same of their corner and hold the same rows. So a window cut from a
/// window of a grid is the window cut from the grid at the place that the
/// two corners add up to.
pub proof fn lemma_parts_agree<T, A: Capability<T>, B: Capability<T>>(
    grid: &VecVec<T>,
    one: &Slice<T, A>,
    other: &Slice<T, B>,
    x: int,
    y: int,
)
    requires
        one.is_part_of_grid(grid, x, y),
        other.is_part_of_grid(grid, x, y),
        one.width() == other.width(),
        one.height() == other.height(),
    ensures
        one.x() == other.x(),
        one.y() == other.y(),
        one.rows() == other.rows(),
{
    assert forall|j: int| 0 <= j < one.height() implies one.rows()[j] == other.rows()[j] by {
        assert(one.rows()[j] =~= other.rows()[j]);
    }
    assert(one.rows() =~= other.rows());
}

/// The two halves of a grid split between two rows are apart and make up
/// the grid: each cell of the grid is reached by exactly one of them, and
/// neither reaches any other.
pub proof fn lemma_grid_hsplit_partitions<T, A: Capability<T>, B: Capability<T>>(
    whole: &VecVec<T>,
    first: &Slice<T, A>,
    rest: &Slice<T, B>,
)
    requires
        first.is_part_of_grid(whole, 0, 0),
        rest.is_part_of_grid(whole, 0, first.height() as int),
        first.width() == whole.width(),
        rest.width() == whole.width(),
        first.height() + rest.height() == whole.height(),
    ensures
        forall|i: int, j: int| (0 <= i < whole.width() && 0 <= j < whole.height()) <==> first.covers(i, j)
            || rest.covers(i, j),
        forall|i: int, j: int| !(first.covers(i, j) && rest.covers(i, j)),
{
}

/// The two halves of a grid split between two columns are apart and make
/// up the grid: each cell of the grid is reached by exactly one of them,
/// and neither reaches any other.
pub proof fn lemma_grid_vsplit_partitions<T, A: Capability<T>, B: Capability<T>>(
    whole: &VecVec<T>,
    first: &Slice<T, A>,
    rest: &Slice<T, B>,
)
    requires
        first.is_part_of_grid(whole, 0, 0),
        rest.is_part_of_grid(whole, first.width() as int, 0),
        first.height() == whole.height(),
        rest.height() == whole.height(),
        first.width() + rest.width() == whole.width(),
    ensures
        forall|i: int, j: int| (0 <= i < whole.width() && 0 <= j < whole.height()) <==> first.covers(i, j)
            || rest.covers(i, j),
        forall|i: int, j: int| !(first.covers(i, j) && rest.covers(i, j)),
{
}

/// Stacking the upper part of a grid on the lower part gives the grid:
/// where `first` shows the rows of `whole` above some row and `rest` the
/// rows from that row on, both at full width, the rows of `first` followed
/// by those of `rest` are the rows of `whole`.
pub proof fn lemma_grid_hsplit_recombines<T, A: Capability<T>, B: Capability<T>>(
    whole: &VecVec<T>,
    first: &Slice<T, A>,
    rest: &Slice<T, B>,
)
    requires
        first.is_part_of_grid(whole, 0, 0),
        rest.is_part_of_grid(whole, 0, first.height() as int),
        first.width() == whole.width(),
        rest.width() == whole.width(),
        first.height() + rest.height() == whole.height(),
    ensures
        first.rows() + rest.rows() == whole.rows(),
{
    let joined = first.rows() + rest.rows();
    assert(joined.len() == whole.rows().len());
    assert forall|j: int| 0 <= j < joined.len() implies joined[j] == whole.rows()[j] by {
        if j < first.height() {
            assert(joined[j] == first.rows()[j]);
            assert(first.rows()[j] =~= whole.rows()[j]);
        } else {
            assert(joined[j] == rest.rows()[j - first.height()]);
            assert(rest.rows()[j - first.height()] =~= whole.rows()[j]);
        }
    }
    assert(joined =~= whole.rows());
}

/// Setting the left part of a grid beside the right part gives the grid:
/// where `first` shows the columns of `whole` left of some column and
/// `rest` the columns from that column on, both at full height, each row of
/// `first` followed by the same row of `rest` is that row of `whole`.
pub proof fn lemma_grid_vsplit_recombines<T, A: Capability<T>, B: Capability<T>>(
    whole: &VecVec<T>,
    first: &Slice<T, A>,
    rest: &Slice<T, B>,
)
    requires
        first.is_part_of_grid(whole, 0, 0),
        rest.is_part_of_grid(whole, first.width() as int, 0),
        first.height() == whole.height(),
        rest.height() == whole.height(),
        first.width() + rest.width() == whole.width(),
    ensures
        forall|j: int| 0 <= j < whole.height()
            ==> #[trigger] first.rows()[j] + rest.rows()[j] == whole.rows()[j],
{
    assert forall|j: int| 0 <= j < whole.height() implies
        #[trigger] first.rows()[j] + rest.rows()[j] == whole.rows()[j] by {
        let joined = first.rows()[j] + rest.rows()[j];
        assert(joined.len() == whole.rows()[j].len());
        assert forall|i: int| 0 <= i < joined.len() implies joined[i] == whole.rows()[j][i] by {
            if i < first.width() {
                assert(joined[i] == first.rows()[j][i]);
            } else {
                assert(joined[i] == rest.rows()[j][i - first.width()]);
            }
        }
        assert(joined =~= whole.rows()[j]);
    }
}

} // verus!
