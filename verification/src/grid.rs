//! The grid: the owner of the cells.

use vstd::prelude::*;
use vstd::std_specs::cmp::{PartialEqSpec, PartialEqSpecImpl};

use crate::laws::{lemma_grid_hsplit_recombines, lemma_grid_vsplit_recombines};
use crate::rows::{chunk, window};
use crate::view::{Capability, ImmutableSlice, MutableSlice, Slice};

verus! {

/// A grid of `width` by `height` cells, kept row after row in one run.
pub struct VecVec<T> {
    inner: Vec<T>,
    width: usize,
    height: usize,
}

impl<T, Mutability: Capability<T>> Slice<T, Mutability> {
    /// Whether this window shows the cells of `grid` from its column `x`
    /// and row `y` on, as far as this window reaches, and says so of its
    /// own corner.
    pub open spec fn is_part_of_grid(&self, grid: &VecVec<T>, x: int, y: int) -> bool {
        &&& self.x() == x
        &&& self.y() == y
        &&& 0 <= x && x + self.width() <= grid.width()
        &&& 0 <= y && y + self.height() <= grid.height()
        &&& forall|i: int, j: int| 0 <= i < self.width() && 0 <= j < self.height()
            ==> self.at(i, j) == grid.at(x + i, y + j)
    }
}

impl<T> VecVec<T> {
    /// Whether the grid is sound: it holds as many cells as its extent
    /// says. Every grid that this library hands out is.
    pub open spec fn wf(&self) -> bool {
        self.cells().len() == self.width() * self.height()
    }

    /// How many cells a row holds.
    pub closed spec fn spec_width(&self) -> usize {
        self.width
    }

    /// How many rows there are.
    pub closed spec fn spec_height(&self) -> usize {
        self.height
    }

    /// The cells, row after row.
    pub closed spec fn cells(&self) -> Seq<T> {
        self.inner@
    }

    /// The cell at column `x` of row `y`.
    pub open spec fn at(&self, x: int, y: int) -> T {
        self.cells()[y * self.width() + x]
    }

    /// What there is to read at `(x, y)`: the cell, if the grid has it.
    pub open spec fn cell(&self, x: int, y: int) -> Option<&T> {
        if 0 <= x < self.width() && 0 <= y < self.height() {
            Some(&self.at(x, y))
        } else {
            None
        }
    }

    /// The cells as rows, top to bottom.
    pub open spec fn rows(&self) -> Seq<Seq<T>> {
        Seq::new(self.height() as nat, |j: int| Seq::new(self.width() as nat, |i: int| self.at(i, j)))
    }

    /// A grid of `width` by `height` cells, each a clone of `value`.
    pub fn new(width: usize, height: usize, value: T) -> (r: Self) where T: Clone
        requires
            width * height <= usize::MAX,
        ensures
            r.wf(),
            r.width() == width,
            r.height() == height,
            forall|x: int, y: int| 0 <= x < width && 0 <= y < height ==> cloned(value, #[trigger] r.at(x, y)),
    {
        let grid = VecVec { inner: vec![value; width * height], width, height };
        proof {
            assert forall|x: int, y: int| 0 <= x < width && 0 <= y < height implies
                cloned(value, #[trigger] grid.at(x, y)) by {
                lemma_index_in_range(x, y, width as int, height as int);
            }
        }
        grid
    }

    /// Whether the grid is sound, found out by looking at it.
    pub fn is_sound(&self) -> (r: bool)
        ensures
            r == self.wf(),
    {
        match self.width.checked_mul(self.height) {
            Some(cells) => self.inner.len() == cells,
            None => {
                proof {
                    assert(self.inner@.len() == self.inner.len());
                }
                false
            },
        }
    }

    /// How many cells a row holds.
    #[verifier::when_used_as_spec(spec_width)]
    pub fn width(&self) -> (r: usize)
        ensures
            r == self.width(),
    {
        self.width
    }

    /// How many rows there are.
    #[verifier::when_used_as_spec(spec_height)]
    pub fn height(&self) -> (r: usize)
        ensures
            r == self.height(),
    {
        self.height
    }

    /// The cell at `(x, y)`, if the grid has it.
    pub fn get(&self, x: usize, y: usize) -> (r: Option<&T>)
        requires
            self.wf(),
        ensures
            r == self.cell(x as int, y as int),
    {
        if x < self.width && y < self.height {
            proof {
                lemma_index_in_range(x as int, y as int, self.width as int, self.height as int);
                assert(self.inner@.len() == self.inner.len());
            }
            Some(&self.inner[y * self.width + x])
        } else {
            None
        }
    }

    /// The cell at `(x, y)` for writing, if the grid has it. The grid then
    /// holds at `(x, y)` what is last written through the result, and at
    /// every other place what it held.
    pub fn get_mut(&mut self, x: usize, y: usize) -> (r: Option<&mut T>)
        requires
            old(self).wf(),
        ensures
            final(self).wf(),
            final(self).width() == old(self).width(),
            final(self).height() == old(self).height(),
            r.is_some() == (x < old(self).width() && y < old(self).height()),
            r.is_some() ==> *r.unwrap() == old(self).at(x as int, y as int),
            r.is_some() ==> final(self).cells()
                == old(self).cells().update(y * old(self).width() + x, *final(r.unwrap())),
            r.is_some() ==> forall|i: int, j: int| 0 <= i < old(self).width() && 0 <= j < old(self).height()
                ==> final(self).at(i, j) == (if i == x && j == y {
                    *final(r.unwrap())
                } else {
                    old(self).at(i, j)
                }),
            r.is_none() ==> final(self).cells() == old(self).cells(),
    {
        if x < self.width && y < self.height {
            let ghost before = *self;
            let ghost after = *final(self);
            proof {
                lemma_index_in_range(x as int, y as int, self.width as int, self.height as int);
                assert(self.inner@.len() == self.inner.len());
            }
            let cell = &mut self.inner[y * self.width + x];
            proof {
                assert forall|i: int, j: int| 0 <= i < before.width() && 0 <= j < before.height() implies
                    after.at(i, j) == (if i == x && j == y {
                        *final(cell)
                    } else {
                        before.at(i, j)
                    }) by {
                    lemma_index_in_range(i, j, before.width() as int, before.height() as int);
                    if j * before.width() + i == y * before.width() + x {
                        lemma_index_apart(i, j, x as int, y as int, before.width() as int);
                    }
                }
            }
            Some(cell)
        } else {
            None
        }
    }

    /// The window of `width` by `height` cells whose corner is the grid's
    /// cell `(x, y)`, if it lies within the grid.
    pub fn slice(&self, x: usize, y: usize, width: usize, height: usize) -> (r: Option<ImmutableSlice<'_, T>>)
        requires
            self.wf(),
        ensures
            r.is_some() == (x + width <= self.width() && y + height <= self.height()),
            r.is_some() ==> r.unwrap().wf(),
            r.is_some() ==> r.unwrap().width() == width && r.unwrap().height() == height,
            r.is_some() ==> r.unwrap().is_part_of_grid(self, x as int, y as int),
    {
        if x <= self.width && width <= self.width - x && y <= self.height && height <= self.height - y {
            proof {
                assert((y + height) * self.width <= self.height * self.width) by (nonlinear_arith)
                    requires
                        y + height <= self.height,
                ;
                assert(self.height * self.width == self.width * self.height) by (nonlinear_arith);
            }
            let rows = window(self.inner.as_slice(), self.width, x, y, width, height);
            let part = Slice::<T, crate::view::Immutable<'_, T>>::from_rows(x, y, width, height, rows);
            proof {
                assert forall|i: int, j: int| 0 <= i < width && 0 <= j < height implies part.at(i, j)
                    == self.at(x + i, y + j) by {
                    assert((y + j) * self.width + x + i == (y + j) * self.width + (x + i));
                }
            }
            Some(part)
        } else {
            None
        }
    }

    /// The window of `width` by `height` cells whose corner is the grid's
    /// cell `(x, y)`, for writing, if it lies within the grid. The grid
    /// then holds within that rectangle what the result's rows end as, and
    /// elsewhere what it held.
    pub fn slice_mut(&mut self, x: usize, y: usize, width: usize, height: usize) -> (r: Option<MutableSlice<'_, T>>)
        requires
            old(self).wf(),
        ensures
            final(self).wf(),
            final(self).width() == old(self).width(),
            final(self).height() == old(self).height(),
            r.is_some() == (x + width <= old(self).width() && y + height <= old(self).height()),
            r.is_some() ==> r.unwrap().wf(),
            r.is_some() ==> r.unwrap().width() == width && r.unwrap().height() == height,
            r.is_some() ==> r.unwrap().is_part_of_grid(&*old(self), x as int, y as int),
            r.is_some() ==> forall|i: int, j: int| 0 <= i < old(self).width() && 0 <= j < old(self).height()
                ==> final(self).at(i, j) == (if x <= i < x + width && y <= j < y + height {
                    final(r.unwrap().row_mut(j - y))@[i - x]
                } else {
                    old(self).at(i, j)
                }),
            r.is_none() ==> final(self).cells() == old(self).cells(),
    {
        if x <= self.width && width <= self.width - x && y <= self.height && height <= self.height - y {
            let ghost before = *self;
            let ghost after = *final(self);
            let whole = self.as_mut_slice();
            let ghost all = whole;
            let part = whole.into_part(x, y, width, height);
            proof {
                assert forall|i: int, j: int| 0 <= i < width && 0 <= j < height implies part.at(i, j)
                    == before.at(x + i, y + j) by {
                    part.lemma_row_mut(i, j);
                    all.lemma_row_mut(x + i, y + j);
                }
                assert forall|i: int, j: int| 0 <= i < before.width() && 0 <= j < before.height() implies
                    after.at(i, j) == (if x <= i < x + width && y <= j < y + height {
                        final(part.row_mut(j - y))@[i - x]
                    } else {
                        before.at(i, j)
                    }) by {
                    all.lemma_row_mut(i, j);
                    if y <= j < y + height {
                        assert(final(all.row_mut(y + (j - y)))@ == all.row_mut(y + (j - y))@.subrange(0, x as int)
                            + final(part.row_mut(j - y))@
                            + all.row_mut(y + (j - y))@.subrange(x + width, all.width() as int));
                    }
                }
            }
            Some(part)
        } else {
            None
        }
    }

    /// The rows above row `y` and the rows from it on, as two windows, if
    /// `y` is at most the height.
    pub fn hsplit_at(&self, y: usize) -> (r: Option<(ImmutableSlice<'_, T>, ImmutableSlice<'_, T>)>)
        requires
            self.wf(),
        ensures
            r.is_some() == (y <= self.height()),
            r.is_some() ==> r.unwrap().0.wf() && r.unwrap().1.wf(),
            r.is_some() ==> r.unwrap().0.width() == self.width() && r.unwrap().0.height() == y,
            r.is_some() ==> r.unwrap().1.width() == self.width() && r.unwrap().1.height() == self.height() - y,
            r.is_some() ==> r.unwrap().0.is_part_of_grid(self, 0, 0),
            r.is_some() ==> r.unwrap().1.is_part_of_grid(self, 0, y as int),
            r.is_some() ==> r.unwrap().0.rows() + r.unwrap().1.rows() == self.rows(),
    {
        if y <= self.height {
            match (self.slice(0, 0, self.width, y), self.slice(0, y, self.width, self.height - y)) {
                (Some(first), Some(rest)) => {
                    proof {
                        lemma_grid_hsplit_recombines(self, &first, &rest);
                    }
                    Some((first, rest))
                },
                _ => None,
            }
        } else {
            None
        }
    }

    /// The columns left of column `x` and the columns from it on, as two
    /// windows, if `x` is at most the width.
    pub fn vsplit_at(&self, x: usize) -> (r: Option<(ImmutableSlice<'_, T>, ImmutableSlice<'_, T>)>)
        requires
            self.wf(),
        ensures
            r.is_some() == (x <= self.width()),
            r.is_some() ==> r.unwrap().0.wf() && r.unwrap().1.wf(),
            r.is_some() ==> r.unwrap().0.width() == x && r.unwrap().0.height() == self.height(),
            r.is_some() ==> r.unwrap().1.width() == self.width() - x && r.unwrap().1.height() == self.height(),
            r.is_some() ==> r.unwrap().0.is_part_of_grid(self, 0, 0),
            r.is_some() ==> r.unwrap().1.is_part_of_grid(self, x as int, 0),
            r.is_some() ==> forall|j: int| 0 <= j < self.height()
                ==> #[trigger] r.unwrap().0.rows()[j] + r.unwrap().1.rows()[j] == self.rows()[j],
    {
        if x <= self.width {
            match (self.slice(0, 0, x, self.height), self.slice(x, 0, self.width - x, self.height)) {
                (Some(first), Some(rest)) => {
                    proof {
                        lemma_grid_vsplit_recombines(self, &first, &rest);
                    }
                    Some((first, rest))
                },
                _ => None,
            }
        } else {
            None
        }
    }

    /// The rows above row `y` and the rows from it on, as two windows for
    /// writing, if `y` is at most the height. The grid then holds above
    /// row `y` what the first result's rows end as, and from row `y` on
    /// what the second's end as: what is written through one is never seen
    /// through the other.
    pub fn hsplit_at_mut(&mut self, y: usize) -> (r: Option<(MutableSlice<'_, T>, MutableSlice<'_, T>)>)
        requires
            old(self).wf(),
        ensures
            final(self).wf(),
            final(self).width() == old(self).width(),
            final(self).height() == old(self).height(),
            r.is_some() == (y <= old(self).height()),
            r.is_some() ==> r.unwrap().0.wf() && r.unwrap().1.wf(),
            r.is_some() ==> r.unwrap().0.width() == old(self).width() && r.unwrap().0.height() == y,
            r.is_some() ==> r.unwrap().1.width() == old(self).width()
                && r.unwrap().1.height() == old(self).height() - y,
            r.is_some() ==> r.unwrap().0.is_part_of_grid(&*old(self), 0, 0),
            r.is_some() ==> r.unwrap().1.is_part_of_grid(&*old(self), 0, y as int),
            r.is_some() ==> forall|i: int, j: int| 0 <= i < old(self).width() && 0 <= j < old(self).height()
                ==> final(self).at(i, j) == (if j < y {
                    final(r.unwrap().0.row_mut(j))@[i]
                } else {
                    final(r.unwrap().1.row_mut(j - y))@[i]
                }),
            r.is_none() ==> final(self).cells() == old(self).cells(),
    {
        if y <= self.height {
            let ghost before = *self;
            let ghost after = *final(self);
            let whole = self.as_mut_slice();
            let ghost all = whole;
            let (first, rest) = whole.into_hsplit(y);
            proof {
                assert forall|i: int, j: int| 0 <= i < first.width() && 0 <= j < first.height() implies
                    first.at(i, j) == before.at(i, j) by {
                    first.lemma_row_mut(i, j);
                    all.lemma_row_mut(i, j);
                    assert(first.row_mut(j)@ == all.row_mut(j)@);
                }
                assert forall|i: int, j: int| 0 <= i < rest.width() && 0 <= j < rest.height() implies
                    rest.at(i, j) == before.at(i, y + j) by {
                    rest.lemma_row_mut(i, j);
                    all.lemma_row_mut(i, y + j);
                    assert(rest.row_mut(j)@ == all.row_mut(y + j)@);
                }
                assert forall|i: int, j: int| 0 <= i < before.width() && 0 <= j < before.height() implies
                    after.at(i, j) == (if j < y {
                        final(first.row_mut(j))@[i]
                    } else {
                        final(rest.row_mut(j - y))@[i]
                    }) by {
                    if j >= y {
                        assert(final(rest.row_mut(j - y))@ == final(all.row_mut(y + (j - y)))@);
                    }
                }
            }
            Some((first, rest))
        } else {
            None
        }
    }

    /// The columns left of column `x` and the columns from it on, as two
    /// windows for writing, if `x` is at most the width. The grid then
    /// holds left of column `x` what the first result's rows end as, and
    /// from column `x` on what the second's end as: what is written through
    /// one is never seen through the other.
    pub fn vsplit_at_mut(&mut self, x: usize) -> (r: Option<(MutableSlice<'_, T>, MutableSlice<'_, T>)>)
        requires
            old(self).wf(),
        ensures
            final(self).wf(),
            final(self).width() == old(self).width(),
            final(self).height() == old(self).height(),
            r.is_some() == (x <= old(self).width()),
            r.is_some() ==> r.unwrap().0.wf() && r.unwrap().1.wf(),
            r.is_some() ==> r.unwrap().0.width() == x && r.unwrap().0.height() == old(self).height(),
            r.is_some() ==> r.unwrap().1.width() == old(self).width() - x
                && r.unwrap().1.height() == old(self).height(),
            r.is_some() ==> r.unwrap().0.is_part_of_grid(&*old(self), 0, 0),
            r.is_some() ==> r.unwrap().1.is_part_of_grid(&*old(self), x as int, 0),
            r.is_some() ==> forall|i: int, j: int| 0 <= i < old(self).width() && 0 <= j < old(self).height()
                ==> final(self).at(i, j) == (if i < x {
                    final(r.unwrap().0.row_mut(j))@[i]
                } else {
                    final(r.unwrap().1.row_mut(j))@[i - x]
                }),
            r.is_none() ==> final(self).cells() == old(self).cells(),
    {
        if x <= self.width {
            let ghost before = *self;
            let ghost after = *final(self);
            let whole = self.as_mut_slice();
            let ghost all = whole;
            let (first, rest) = whole.into_vsplit(x);
            proof {
                assert forall|i: int, j: int| 0 <= i < first.width() && 0 <= j < first.height() implies
                    first.at(i, j) == before.at(i, j) by {
                    first.lemma_row_mut(i, j);
                    all.lemma_row_mut(i, j);
                }
                assert forall|i: int, j: int| 0 <= i < rest.width() && 0 <= j < rest.height() implies
                    rest.at(i, j) == before.at(x + i, j) by {
                    rest.lemma_row_mut(i, j);
                    all.lemma_row_mut(x + i, j);
                }
                assert forall|i: int, j: int| 0 <= i < before.width() && 0 <= j < before.height() implies
                    after.at(i, j) == (if i < x {
                        final(first.row_mut(j))@[i]
                    } else {
                        final(rest.row_mut(j))@[i - x]
                    }) by {
                    assert(final(all.row_mut(j))@ == final(first.row_mut(j))@ + final(rest.row_mut(j))@);
                }
            }
            Some((first, rest))
        } else {
            None
        }
    }

    /// The window that spans the whole grid.
    pub fn as_slice(&self) -> (r: ImmutableSlice<'_, T>)
        requires
            self.wf(),
        ensures
            r.wf(),
            r.width() == self.width() && r.height() == self.height(),
            r.is_part_of_grid(self, 0, 0),
    {
        match self.slice(0, 0, self.width, self.height) {
            Some(whole) => whole,
            None => vstd::pervasive::unreached(),
        }
    }

    /// The window that spans the whole grid, for writing. The grid then
    /// holds what the result's rows end as.
    pub fn as_mut_slice(&mut self) -> (r: MutableSlice<'_, T>)
        requires
            old(self).wf(),
        ensures
            r.wf(),
            final(self).wf(),
            final(self).width() == old(self).width(),
            final(self).height() == old(self).height(),
            r.width() == old(self).width() && r.height() == old(self).height(),
            r.is_part_of_grid(&*old(self), 0, 0),
            forall|i: int, j: int| 0 <= i < old(self).width() && 0 <= j < old(self).height()
                ==> final(self).at(i, j) == final(r.row_mut(j))@[i],
    {
        let width = self.width;
        let height = self.height;
        let rows = chunk(self.inner.as_mut_slice(), width, height);
        let whole = Slice::<T, crate::view::Mutable<'_, T>>::from_rows(0, 0, width, height, rows);
        proof {
            assert forall|i: int, j: int| 0 <= i < width && 0 <= j < height implies whole.at(i, j)
                == old(self).at(i, j) by {
                whole.lemma_row_mut(i, j);
            }
        }
        whole
    }
}

impl<T: Clone> Clone for VecVec<T> {
    /// A grid of the same extent whose cells are clones of this one's.
    fn clone(&self) -> (r: Self)
        ensures
            r.wf() == self.wf(),
            r.width() == self.width(),
            r.height() == self.height(),
            r.cells().len() == self.cells().len(),
            forall|k: int| 0 <= k < self.cells().len() ==> cloned(self.cells()[k], #[trigger] r.cells()[k]),
    {
        VecVec { inner: self.inner.clone(), width: self.width, height: self.height }
    }
}

impl<T: PartialEq> PartialEqSpecImpl for VecVec<T> {
    open spec fn obeys_eq_spec() -> bool {
        <T as PartialEqSpec>::obeys_eq_spec()
    }

    /// Two grids are equal when they are as wide and as high as each
    /// other and hold equal cells at each place.
    open spec fn eq_spec(&self, other: &Self) -> bool {
        &&& self.width() == other.width()
        &&& self.height() == other.height()
        &&& self.cells().len() == other.cells().len()
        &&& forall|k: int| 0 <= k < self.cells().len() ==> #[trigger] self.cells()[k].eq_spec(&other.cells()[k])
    }
}

impl<T: PartialEq> PartialEq for VecVec<T> {
    fn eq(&self, other: &Self) -> (r: bool) {
        if self.width != other.width || self.height != other.height || self.inner.len() != other.inner.len() {
            return false;
        }
        let mut k: usize = 0;
        while k < self.inner.len()
            invariant
                k <= self.inner@.len(),
                self.inner@.len() == other.inner@.len(),
                <T as PartialEqSpec>::obeys_eq_spec() ==> forall|i: int| 0 <= i < k
                    ==> #[trigger] self.cells()[i].eq_spec(&other.cells()[i]),
            decreases self.inner@.len() - k,
        {
            if self.inner[k] != other.inner[k] {
                return false;
            }
            k += 1;
        }
        true
    }
}

impl<T: Eq> Eq for VecVec<T> {

}

/// Two cells of a row-major run of rows of `width` cells that stand at one
/// place are one cell.
pub proof fn lemma_index_apart(x1: int, y1: int, x2: int, y2: int, width: int)
    requires
        0 <= x1 < width,
        0 <= x2 < width,
        y1 * width + x1 == y2 * width + x2,
    ensures
        x1 == x2,
        y1 == y2,
{
    if y1 < y2 {
        assert(y1 * width + width <= y2 * width) by (nonlinear_arith)
            requires
                y1 + 1 <= y2,
                0 < width,
        ;
    } else if y2 < y1 {
        assert(y2 * width + width <= y1 * width) by (nonlinear_arith)
            requires
                y2 + 1 <= y1,
                0 < width,
        ;
    }
}

/// The place of cell `(x, y)` in a row-major run of `height` rows of
/// `width` cells lies in the run.
pub proof fn lemma_index_in_range(x: int, y: int, width: int, height: int)
    requires
        0 <= x < width,
        0 <= y < height,
    ensures
        0 <= y * width + x < width * height,
        y * width + x < (y + 1) * width,
{
    assert(y * width + x < (y + 1) * width) by (nonlinear_arith)
        requires
            0 <= x < width,
    ;
    assert((y + 1) * width <= height * width) by (nonlinear_arith)
        requires
            y + 1 <= height,
            0 <= width,
    ;
    assert(height * width == width * height) by (nonlinear_arith);
    assert(0 <= y * width) by (nonlinear_arith)
        requires
            0 <= y,
            0 <= width,
    ;
}

} // verus!
