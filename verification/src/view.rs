//! Rectangular windows over a grid's cells.

use core::marker::PhantomData;
use vstd::prelude::*;

use crate::laws::{lemma_hsplit_recombines, lemma_vsplit_recombines};
use crate::rows::{cut_columns, cut_rows, reborrow};

verus! {

/// What a window needs from its capability: the rows of cells it reaches.
pub trait Capability<T> {
    /// How many rows are reached.
    spec fn count(&self) -> nat;

    /// The cells of row `y`, from left to right.
    spec fn reach(&self, y: int) -> Seq<T>;

    /// How many rows are reached.
    fn len(&self) -> (n: usize)
        ensures
            n == self.count(),
    ;

    /// Row `y`, for reading.
    fn row(&self, y: usize) -> (r: &[T])
        requires
            y < self.count(),
        ensures
            r@ == self.reach(y as int),
    ;
}

/// The capability to read a rectangle of cells, shared freely.
pub struct Immutable<'a, T> {
    pub(crate) rows: Vec<&'a [T]>,
}

/// The capability to read and write a rectangle of cells, held by one
/// window alone.
pub struct Mutable<'a, T> {
    pub(crate) rows: Vec<&'a mut [T]>,
}

impl<'a, T> Capability<T> for Immutable<'a, T> {
    closed spec fn count(&self) -> nat {
        self.rows@.len()
    }

    closed spec fn reach(&self, y: int) -> Seq<T> {
        self.rows@[y]@
    }

    fn len(&self) -> (n: usize) {
        self.rows.len()
    }

    fn row(&self, y: usize) -> (r: &[T]) {
        self.rows[y]
    }
}

impl<'a, T> Capability<T> for Mutable<'a, T> {
    closed spec fn count(&self) -> nat {
        self.rows@.len()
    }

    closed spec fn reach(&self, y: int) -> Seq<T> {
        self.rows@[y]@
    }

    fn len(&self) -> (n: usize) {
        self.rows.len()
    }

    fn row(&self, y: usize) -> (r: &[T]) {
        &*self.rows[y]
    }
}

/// A window: a rectangle of cells of some grid, with the place of its top
/// left corner in that grid. It owns no cell.
pub struct Slice<T, Mutability: Capability<T>> {
    x: usize,
    y: usize,
    width: usize,
    height: usize,
    _mutability: Mutability,
    _cell: PhantomData<T>,
}

/// A window for reading.
pub type ImmutableSlice<'a, T> = Slice<T, Immutable<'a, T>>;

/// A window for reading and writing.
pub type MutableSlice<'a, T> = Slice<T, Mutable<'a, T>>;

impl<T, Mutability: Capability<T>> Slice<T, Mutability> {
    /// Whether the window is sound: its rows are as many and as long as
    /// its extent says, and its far corner can be counted. Every window
    /// that this library hands out is.
    pub closed spec fn wf(&self) -> bool {
        &&& self.x + self.width <= usize::MAX
        &&& self.y + self.height <= usize::MAX
        &&& self._mutability.count() == self.height
        &&& forall|j: int| 0 <= j < self.height ==> (#[trigger] self._mutability.reach(j)).len() == self.width
    }

    /// The column of the window's left edge.
    pub closed spec fn spec_x(&self) -> usize {
        self.x
    }

    /// The row of the window's top edge.
    pub closed spec fn spec_y(&self) -> usize {
        self.y
    }

    /// How many cells a row of the window holds.
    pub closed spec fn spec_width(&self) -> usize {
        self.width
    }

    /// How many rows the window has.
    pub closed spec fn spec_height(&self) -> usize {
        self.height
    }

    /// The cell at column `x` of row `y`, counted from the window's own
    /// top left corner.
    pub closed spec fn at(&self, x: int, y: int) -> T {
        self._mutability.reach(y)[x]
    }

    /// What there is to read at `(x, y)`, counted from the window's own
    /// corner: the cell, if the window has it.
    pub open spec fn cell(&self, x: int, y: int) -> Option<&T> {
        if 0 <= x < self.width() && 0 <= y < self.height() {
            Some(&self.at(x, y))
        } else {
            None
        }
    }

    /// The window's cells as rows, top to bottom.
    pub open spec fn rows(&self) -> Seq<Seq<T>> {
        Seq::new(self.height() as nat, |j: int| Seq::new(self.width() as nat, |i: int| self.at(i, j)))
    }

    /// Whether the window reaches the cell that stands at column `i` of row
    /// `j`, counted in the grid that the window's corner is counted in.
    pub open spec fn covers(&self, i: int, j: int) -> bool {
        &&& self.x() <= i < self.x() + self.width()
        &&& self.y() <= j < self.y() + self.height()
    }

    /// Whether this window shows the cells of `outer` from its column `x`
    /// and row `y` on, as far as this window reaches, and says so of its
    /// own corner.
    pub open spec fn is_part_of<Outer: Capability<T>>(&self, outer: &Slice<T, Outer>, x: int, y: int) -> bool {
        &&& self.x() == outer.x() + x
        &&& self.y() == outer.y() + y
        &&& 0 <= x && x + self.width() <= outer.width()
        &&& 0 <= y && y + self.height() <= outer.height()
        &&& forall|i: int, j: int| 0 <= i < self.width() && 0 <= j < self.height()
            ==> self.at(i, j) == outer.at(x + i, y + j)
    }

    /// The column of the window's left edge, as it was counted where the
    /// window was made.
    #[verifier::when_used_as_spec(spec_x)]
    pub fn x(&self) -> (r: usize)
        ensures
            r == self.x(),
    {
        self.x
    }

    /// The row of the window's top edge, as it was counted where the
    /// window was made.
    #[verifier::when_used_as_spec(spec_y)]
    pub fn y(&self) -> (r: usize)
        ensures
            r == self.y(),
    {
        self.y
    }

    /// How many cells a row of the window holds.
    #[verifier::when_used_as_spec(spec_width)]
    pub fn width(&self) -> (r: usize)
        ensures
            r == self.width(),
    {
        self.width
    }

    /// How many rows the window has.
    #[verifier::when_used_as_spec(spec_height)]
    pub fn height(&self) -> (r: usize)
        ensures
            r == self.height(),
    {
        self.height
    }

    /// Whether the window is sound, found out by looking at it.
    pub fn is_sound(&self) -> (r: bool)
        ensures
            r == self.wf(),
    {
        if self.width > usize::MAX - self.x || self.height > usize::MAX - self.y {
            return false;
        }
        if self._mutability.len() != self.height {
            return false;
        }
        let mut j: usize = 0;
        while j < self.height
            invariant
                j <= self.height,
                self._mutability.count() == self.height,
                forall|k: int| 0 <= k < j ==> (#[trigger] self._mutability.reach(k)).len() == self.width,
            decreases self.height - j,
        {
            if self._mutability.row(j).len() != self.width {
                return false;
            }
            j += 1;
        }
        true
    }

    /// The cell at `(x, y)`, counted from the window's own corner, if the
    /// window has it.
    pub fn get(&self, x: usize, y: usize) -> (r: Option<&T>)
        requires
            self.wf(),
        ensures
            r == self.cell(x as int, y as int),
    {
        if x < self.width && y < self.height {
            let row = self._mutability.row(y);
            Some(&row[x])
        } else {
            None
        }
    }
}

impl<'a, T> Slice<T, Immutable<'a, T>> {
    /// The window that reads the given rows, with its corner at `(x, y)`.
    pub(crate) fn from_rows(x: usize, y: usize, width: usize, height: usize, rows: Vec<&'a [T]>) -> (r: Self)
        requires
            x + width <= usize::MAX,
            y + height <= usize::MAX,
            rows@.len() == height,
            forall|j: int| 0 <= j < height ==> rows@[j]@.len() == width,
        ensures
            r.wf(),
            r.x() == x && r.y() == y && r.width() == width && r.height() == height,
            forall|i: int, j: int| r.at(i, j) == rows@[j]@[i],
    {
        Slice { x, y, width, height, _mutability: Immutable { rows }, _cell: PhantomData }
    }

    /// The window of `width` by `height` cells whose corner is this
    /// window's cell `(x, y)`, if it lies within this window. It reads the
    /// grid as this window does, and for as long.
    pub fn slice(&self, x: usize, y: usize, width: usize, height: usize) -> (r: Option<ImmutableSlice<'a, T>>)
        requires
            self.wf(),
        ensures
            r.is_some() ==> r.unwrap().wf(),
            r.is_some() == (x + width <= self.width() && y + height <= self.height()),
            r.is_some() ==> r.unwrap().width() == width && r.unwrap().height() == height,
            r.is_some() ==> r.unwrap().is_part_of(self, x as int, y as int),
    {
        if x <= self.width && width <= self.width - x && y <= self.height && height <= self.height - y {
            let mut rows: Vec<&'a [T]> = Vec::new();
            let mut j: usize = 0;
            while j < height
                invariant
                    j <= height,
                    x + width <= self.width,
                    y + height <= self.height,
                    self.wf(),
                    rows@.len() == j,
                    forall|k: int| 0 <= k < j ==> (#[trigger] rows@[k])@
                        == self._mutability.reach(y + k).subrange(x as int, x + width),
                decreases height - j,
            {
                let row: &'a [T] = self._mutability.rows[y + j];
                assert(row@ == self._mutability.reach(y + j));
                let part = vstd::slice::slice_subrange(row, x, x + width);
                rows.push(part);
                j += 1;
            }
            Some(Slice {
                x: self.x + x,
                y: self.y + y,
                width,
                height,
                _mutability: Immutable { rows },
                _cell: PhantomData,
            })
        } else {
            None
        }
    }

    /// The rows above row `y` and the rows from it on, as two windows, if
    /// `y` is at most the height.
    pub fn hsplit_at(&self, y: usize) -> (r: Option<(ImmutableSlice<'a, T>, ImmutableSlice<'a, T>)>)
        requires
            self.wf(),
        ensures
            r.is_some() ==> r.unwrap().0.wf() && r.unwrap().1.wf(),
            r.is_some() == (y <= self.height()),
            r.is_some() ==> r.unwrap().0.width() == self.width() && r.unwrap().0.height() == y,
            r.is_some() ==> r.unwrap().1.width() == self.width() && r.unwrap().1.height() == self.height() - y,
            r.is_some() ==> r.unwrap().0.is_part_of(self, 0, 0),
            r.is_some() ==> r.unwrap().1.is_part_of(self, 0, y as int),
            r.is_some() ==> r.unwrap().0.rows() + r.unwrap().1.rows() == self.rows(),
    {
        if y <= self.height {
            match (self.slice(0, 0, self.width, y), self.slice(0, y, self.width, self.height - y)) {
                (Some(first), Some(rest)) => {
                    proof {
                        lemma_hsplit_recombines(self, &first, &rest);
                    }
                    Some((first, rest))
                },
                _ => None,
            }
        } else {
            None
        }
    }

    /// The columns left of column `x` and the columns from it on, as two
    /// windows, if `x` is at most the width.
    pub fn vsplit_at(&self, x: usize) -> (r: Option<(ImmutableSlice<'a, T>, ImmutableSlice<'a, T>)>)
        requires
            self.wf(),
        ensures
            r.is_some() ==> r.unwrap().0.wf() && r.unwrap().1.wf(),
            r.is_some() == (x <= self.width()),
            r.is_some() ==> r.unwrap().0.width() == x && r.unwrap().0.height() == self.height(),
            r.is_some() ==> r.unwrap().1.width() == self.width() - x && r.unwrap().1.height() == self.height(),
            r.is_some() ==> r.unwrap().0.is_part_of(self, 0, 0),
            r.is_some() ==> r.unwrap().1.is_part_of(self, x as int, 0),
            r.is_some() ==> forall|j: int| 0 <= j < self.height()
                ==> #[trigger] r.unwrap().0.rows()[j] + r.unwrap().1.rows()[j] == self.rows()[j],
    {
        if x <= self.width {
            match (self.slice(0, 0, x, self.height), self.slice(x, 0, self.width - x, self.height)) {
                (Some(first), Some(rest)) => {
                    proof {
                        lemma_vsplit_recombines(self, &first, &rest);
                    }
                    Some((first, rest))
                },
                _ => None,
            }
        } else {
            None
        }
    }
}

impl<'a, T> Slice<T, Mutable<'a, T>> {
    /// The window that reads and writes the given rows, with its corner at
    /// `(x, y)`.
    pub(crate) fn from_rows(x: usize, y: usize, width: usize, height: usize, rows: Vec<&'a mut [T]>) -> (r: Self)
        requires
            x + width <= usize::MAX,
            y + height <= usize::MAX,
            rows@.len() == height,
            forall|j: int| 0 <= j < height ==> rows@[j]@.len() == width,
        ensures
            r.wf(),
            r.x() == x && r.y() == y && r.width() == width && r.height() == height,
            forall|j: int| 0 <= j < height ==> r.row_mut(j)@ == rows@[j]@,
            forall|j: int| 0 <= j < height ==> final(r.row_mut(j))@ == final(rows@[j])@,
    {
        Slice { x, y, width, height, _mutability: Mutable { rows }, _cell: PhantomData }
    }

    /// The exclusive reference through which this window reaches its row
    /// `y`. What the row holds once the window is given up is the final
    /// value of this reference.
    pub closed spec fn row_mut(&self, y: int) -> &'a mut [T] {
        self._mutability.rows@[y]
    }

    /// A row of the window is as long as the window is wide, and a cell of
    /// the window is the cell of its row.
    pub proof fn lemma_row_mut(&self, x: int, y: int)
        requires
            self.wf(),
            0 <= y < self.height(),
        ensures
            self.row_mut(y)@.len() == self.width(),
            self.row_mut(y)@[x] == self.at(x, y),
    {
        assert(self._mutability.reach(y).len() == self.width);
    }

    /// A window that is written through no more has settled: its rows end
    /// as they are.
    pub proof fn lemma_given_up(self, y: int)
        requires
            self.wf(),
            has_resolved(self),
            0 <= y < self.height(),
        ensures
            final(self.row_mut(y))@ == self.row_mut(y)@,
    {
    }

    /// The window of `width` by `height` cells whose corner is this
    /// window's cell `(x, y)`, for reading, if it lies within this window.
    /// While it is held, nothing is written through this window.
    pub fn slice(&self, x: usize, y: usize, width: usize, height: usize) -> (r: Option<ImmutableSlice<'_, T>>)
        requires
            self.wf(),
        ensures
            r.is_some() ==> r.unwrap().wf(),
            r.is_some() == (x + width <= self.width() && y + height <= self.height()),
            r.is_some() ==> r.unwrap().width() == width && r.unwrap().height() == height,
            r.is_some() ==> r.unwrap().is_part_of(self, x as int, y as int),
    {
        if x <= self.width && width <= self.width - x && y <= self.height && height <= self.height - y {
            let mut rows: Vec<&[T]> = Vec::new();
            let mut j: usize = 0;
            while j < height
                invariant
                    j <= height,
                    x + width <= self.width,
                    y + height <= self.height,
                    self.wf(),
                    rows@.len() == j,
                    forall|k: int| 0 <= k < j ==> (#[trigger] rows@[k])@
                        == self._mutability.reach(y + k).subrange(x as int, x + width),
                decreases height - j,
            {
                let row = self._mutability.row(y + j);
                let part = vstd::slice::slice_subrange(row, x, x + width);
                rows.push(part);
                j += 1;
            }
            Some(Slice {
                x: self.x + x,
                y: self.y + y,
                width,
                height,
                _mutability: Immutable { rows },
                _cell: PhantomData,
            })
        } else {
            None
        }
    }

    /// The rows above row `y` and the rows from it on, as two windows, if
    /// `y` is at most the height.
    pub fn hsplit_at(&self, y: usize) -> (r: Option<(ImmutableSlice<'_, T>, ImmutableSlice<'_, T>)>)
        requires
            self.wf(),
        ensures
            r.is_some() ==> r.unwrap().0.wf() && r.unwrap().1.wf(),
            r.is_some() == (y <= self.height()),
            r.is_some() ==> r.unwrap().0.width() == self.width() && r.unwrap().0.height() == y,
            r.is_some() ==> r.unwrap().1.width() == self.width() && r.unwrap().1.height() == self.height() - y,
            r.is_some() ==> r.unwrap().0.is_part_of(self, 0, 0),
            r.is_some() ==> r.unwrap().1.is_part_of(self, 0, y as int),
            r.is_some() ==> r.unwrap().0.rows() + r.unwrap().1.rows() == self.rows(),
    {
        if y <= self.height {
            match (self.slice(0, 0, self.width, y), self.slice(0, y, self.width, self.height - y)) {
                (Some(first), Some(rest)) => {
                    proof {
                        lemma_hsplit_recombines(self, &first, &rest);
                    }
                    Some((first, rest))
                },
                _ => None,
            }
        } else {
            None
        }
    }

    /// The columns left of column `x` and the columns from it on, as two
    /// windows, if `x` is at most the width.
    pub fn vsplit_at(&self, x: usize) -> (r: Option<(ImmutableSlice<'_, T>, ImmutableSlice<'_, T>)>)
        requires
            self.wf(),
        ensures
            r.is_some() ==> r.unwrap().0.wf() && r.unwrap().1.wf(),
            r.is_some() == (x <= self.width()),
            r.is_some() ==> r.unwrap().0.width() == x && r.unwrap().0.height() == self.height(),
            r.is_some() ==> r.unwrap().1.width() == self.width() - x && r.unwrap().1.height() == self.height(),
            r.is_some() ==> r.unwrap().0.is_part_of(self, 0, 0),
            r.is_some() ==> r.unwrap().1.is_part_of(self, x as int, 0),
            r.is_some() ==> forall|j: int| 0 <= j < self.height()
                ==> #[trigger] r.unwrap().0.rows()[j] + r.unwrap().1.rows()[j] == self.rows()[j],
    {
        if x <= self.width {
            match (self.slice(0, 0, x, self.height), self.slice(x, 0, self.width - x, self.height)) {
                (Some(first), Some(rest)) => {
                    proof {
                        lemma_vsplit_recombines(self, &first, &rest);
                    }
                    Some((first, rest))
                },
                _ => None,
            }
        } else {
            None
        }
    }

    /// The cell at `(x, y)` for writing, if the window has it. The window
    /// then holds at `(x, y)` what is last written through the result, and
    /// at every other place what it held.
    pub fn get_mut(&mut self, x: usize, y: usize) -> (r: Option<&mut T>)
        requires
            old(self).wf(),
        ensures
            final(self).wf(),
            final(self).x() == old(self).x() && final(self).y() == old(self).y(),
            final(self).width() == old(self).width() && final(self).height() == old(self).height(),
            forall|j: int| 0 <= j < old(self).height()
                ==> final(final(self).row_mut(j))@ == final(old(self).row_mut(j))@,
            r.is_some() == (x < old(self).width() && y < old(self).height()),
            r.is_some() ==> *r.unwrap() == old(self).at(x as int, y as int),
            r.is_some() ==> forall|i: int, j: int| 0 <= i < old(self).width() && 0 <= j < old(self).height()
                ==> final(self).at(i, j) == (if i == x && j == y {
                    *final(r.unwrap())
                } else {
                    old(self).at(i, j)
                }),
            r.is_none() ==> forall|i: int, j: int| 0 <= i < old(self).width() && 0 <= j < old(self).height()
                ==> final(self).at(i, j) == old(self).at(i, j),
    {
        if x < self.width && y < self.height {
            assert(self._mutability.reach(y as int).len() == self.width);
            let ghost before = self._mutability;
            let ghost after = final(self)._mutability;
            let cell = &mut self._mutability.rows[y][x];
            proof {
                assert forall|j: int| 0 <= j < self.height implies (#[trigger] after.reach(j)).len()
                    == self.width by {
                    assert(before.reach(j).len() == self.width);
                }
            }
            Some(cell)
        } else {
            None
        }
    }

    /// The window of `width` by `height` cells whose corner is this
    /// window's cell `(x, y)`, for writing, if it lies within this window.
    /// This window then holds within that rectangle what the result's rows
    /// end as, and elsewhere what it held.
    pub fn slice_mut(&mut self, x: usize, y: usize, width: usize, height: usize) -> (r: Option<MutableSlice<'_, T>>)
        requires
            old(self).wf(),
        ensures
            final(self).wf(),
            final(self).x() == old(self).x() && final(self).y() == old(self).y(),
            final(self).width() == old(self).width() && final(self).height() == old(self).height(),
            forall|j: int| 0 <= j < old(self).height()
                ==> final(final(self).row_mut(j))@ == final(old(self).row_mut(j))@,
            r.is_some() == (x + width <= old(self).width() && y + height <= old(self).height()),
            r.is_some() ==> r.unwrap().wf(),
            r.is_some() ==> r.unwrap().width() == width && r.unwrap().height() == height,
            r.is_some() ==> r.unwrap().is_part_of(&*old(self), x as int, y as int),
            r.is_some() ==> forall|i: int, j: int| 0 <= i < old(self).width() && 0 <= j < old(self).height()
                ==> final(self).at(i, j) == (if x <= i < x + width && y <= j < y + height {
                    final(r.unwrap().row_mut(j - y))@[i - x]
                } else {
                    old(self).at(i, j)
                }),
            r.is_none() ==> forall|i: int, j: int| 0 <= i < old(self).width() && 0 <= j < old(self).height()
                ==> final(self).at(i, j) == old(self).at(i, j),
    {
        if x <= self.width && width <= self.width - x && y <= self.height && height <= self.height - y {
            let ghost before = *self;
            let ghost after = *final(self);
            let whole = self.reborrowed();
            let ghost all = whole;
            let part = whole.into_part(x, y, width, height);
            proof {
                assert forall|i: int, j: int| 0 <= i < width && 0 <= j < height implies part.at(i, j)
                    == before.at(x + i, y + j) by {
                    part.lemma_row_mut(i, j);
                    before.lemma_row_mut(x + i, y + j);
                }
                assert forall|i: int, j: int| 0 <= i < before.width() && 0 <= j < before.height() implies
                    after.at(i, j) == (if x <= i < x + width && y <= j < y + height {
                        final(part.row_mut(j - y))@[i - x]
                    } else {
                        before.at(i, j)
                    }) by {
                    after.lemma_row_mut(i, j);
                    before.lemma_row_mut(i, j);
                    all.lemma_row_mut(i, j);
                    assert(after.row_mut(j)@ == final(all.row_mut(j))@);
                    if y <= j < y + height {
                        assert(final(all.row_mut(y + (j - y)))@ == all.row_mut(y + (j - y))@.subrange(0, x as int)
                            + final(part.row_mut(j - y))@
                            + all.row_mut(y + (j - y))@.subrange(x + width, all.width() as int));
                    }
                }
            }
            Some(part)
        } else {
            None
        }
    }

    /// The rows above row `y` and the rows from it on, as two windows for
    /// writing, if `y` is at most the height. This window then holds above
    /// row `y` what the first result's rows end as, and from row `y` on
    /// what the second's end as: what is written through one is never seen
    /// through the other.
    pub fn hsplit_at_mut(&mut self, y: usize) -> (r: Option<(MutableSlice<'_, T>, MutableSlice<'_, T>)>)
        requires
            old(self).wf(),
        ensures
            final(self).wf(),
            final(self).x() == old(self).x() && final(self).y() == old(self).y(),
            final(self).width() == old(self).width() && final(self).height() == old(self).height(),
            forall|j: int| 0 <= j < old(self).height()
                ==> final(final(self).row_mut(j))@ == final(old(self).row_mut(j))@,
            r.is_some() == (y <= old(self).height()),
            r.is_some() ==> r.unwrap().0.wf() && r.unwrap().1.wf(),
            r.is_some() ==> r.unwrap().0.width() == old(self).width() && r.unwrap().0.height() == y,
            r.is_some() ==> r.unwrap().1.width() == old(self).width()
                && r.unwrap().1.height() == old(self).height() - y,
            r.is_some() ==> r.unwrap().0.is_part_of(&*old(self), 0, 0),
            r.is_some() ==> r.unwrap().1.is_part_of(&*old(self), 0, y as int),
            r.is_some() ==> forall|i: int, j: int| 0 <= i < old(self).width() && 0 <= j < old(self).height()
                ==> final(self).at(i, j) == (if j < y {
                    final(r.unwrap().0.row_mut(j))@[i]
                } else {
                    final(r.unwrap().1.row_mut(j - y))@[i]
                }),
            r.is_none() ==> forall|i: int, j: int| 0 <= i < old(self).width() && 0 <= j < old(self).height()
                ==> final(self).at(i, j) == old(self).at(i, j),
    {
        if y <= self.height {
            let ghost before = *self;
            let ghost after = *final(self);
            let whole = self.reborrowed();
            let ghost all = whole;
            let (first, rest) = whole.into_hsplit(y);
            proof {
                assert forall|i: int, j: int| 0 <= i < first.width() && 0 <= j < first.height() implies
                    first.at(i, j) == before.at(i, j) by {
                    first.lemma_row_mut(i, j);
                    before.lemma_row_mut(i, j);
                    assert(first.row_mut(j)@ == all.row_mut(j)@);
                }
                assert forall|i: int, j: int| 0 <= i < rest.width() && 0 <= j < rest.height() implies
                    rest.at(i, j) == before.at(i, y + j) by {
                    rest.lemma_row_mut(i, j);
                    before.lemma_row_mut(i, y + j);
                    assert(rest.row_mut(j)@ == all.row_mut(y + j)@);
                }
                assert forall|i: int, j: int| 0 <= i < before.width() && 0 <= j < before.height() implies
                    after.at(i, j) == (if j < y {
                        final(first.row_mut(j))@[i]
                    } else {
                        final(rest.row_mut(j - y))@[i]
                    }) by {
                    after.lemma_row_mut(i, j);
                    assert(after.row_mut(j)@ == final(all.row_mut(j))@);
                    if j >= y {
                        assert(final(rest.row_mut(j - y))@ == final(all.row_mut(y + (j - y)))@);
                    }
                }
            }
            Some((first, rest))
        } else {
            None
        }
    }

    /// The columns left of column `x` and the columns from it on, as two
    /// windows for writing, if `x` is at most the width. This window then
    /// holds left of column `x` what the first result's rows end as, and
    /// from column `x` on what the second's end as: what is written through
    /// one is never seen through the other.
    pub fn vsplit_at_mut(&mut self, x: usize) -> (r: Option<(MutableSlice<'_, T>, MutableSlice<'_, T>)>)
        requires
            old(self).wf(),
        ensures
            final(self).wf(),
            final(self).x() == old(self).x() && final(self).y() == old(self).y(),
            final(self).width() == old(self).width() && final(self).height() == old(self).height(),
            forall|j: int| 0 <= j < old(self).height()
                ==> final(final(self).row_mut(j))@ == final(old(self).row_mut(j))@,
            r.is_some() == (x <= old(self).width()),
            r.is_some() ==> r.unwrap().0.wf() && r.unwrap().1.wf(),
            r.is_some() ==> r.unwrap().0.width() == x && r.unwrap().0.height() == old(self).height(),
            r.is_some() ==> r.unwrap().1.width() == old(self).width() - x
                && r.unwrap().1.height() == old(self).height(),
            r.is_some() ==> r.unwrap().0.is_part_of(&*old(self), 0, 0),
            r.is_some() ==> r.unwrap().1.is_part_of(&*old(self), x as int, 0),
            r.is_some() ==> forall|i: int, j: int| 0 <= i < old(self).width() && 0 <= j < old(self).height()
                ==> final(self).at(i, j) == (if i < x {
                    final(r.unwrap().0.row_mut(j))@[i]
                } else {
                    final(r.unwrap().1.row_mut(j))@[i - x]
                }),
            r.is_none() ==> forall|i: int, j: int| 0 <= i < old(self).width() && 0 <= j < old(self).height()
                ==> final(self).at(i, j) == old(self).at(i, j),
    {
        if x <= self.width {
            let ghost before = *self;
            let ghost after = *final(self);
            let whole = self.reborrowed();
            let ghost all = whole;
            let (first, rest) = whole.into_vsplit(x);
            proof {
                assert forall|i: int, j: int| 0 <= i < first.width() && 0 <= j < first.height() implies
                    first.at(i, j) == before.at(i, j) by {
                    first.lemma_row_mut(i, j);
                    before.lemma_row_mut(i, j);
                }
                assert forall|i: int, j: int| 0 <= i < rest.width() && 0 <= j < rest.height() implies
                    rest.at(i, j) == before.at(x + i, j) by {
                    rest.lemma_row_mut(i, j);
                    before.lemma_row_mut(x + i, j);
                }
                assert forall|i: int, j: int| 0 <= i < before.width() && 0 <= j < before.height() implies
                    after.at(i, j) == (if i < x {
                        final(first.row_mut(j))@[i]
                    } else {
                        final(rest.row_mut(j))@[i - x]
                    }) by {
                    after.lemma_row_mut(i, j);
                    assert(after.row_mut(j)@ == final(all.row_mut(j))@);
                    assert(final(all.row_mut(j))@ == final(first.row_mut(j))@ + final(rest.row_mut(j))@);
                }
            }
            Some((first, rest))
        } else {
            None
        }
    }

    /// The window given up for the part of it that is `width` by `height`
    /// cells from its cell `(x, y)` on. Outside that part every row ends
    /// as it is.
    pub(crate) fn into_part(self, x: usize, y: usize, width: usize, height: usize) -> (r: MutableSlice<'a, T>)
        requires
            self.wf(),
            x + width <= self.width(),
            y + height <= self.height(),
        ensures
            r.wf(),
            r.x() == self.x() + x && r.y() == self.y() + y,
            r.width() == width && r.height() == height,
            forall|j: int| 0 <= j < height
                ==> r.row_mut(j)@ == self.row_mut(y + j)@.subrange(x as int, x + width),
            forall|j: int| 0 <= j < height ==> final(r.row_mut(j))@.len() == width,
            forall|j: int| 0 <= j < height ==> final(self.row_mut(y + j))@
                == self.row_mut(y + j)@.subrange(0, x as int) + final(r.row_mut(j))@
                + self.row_mut(y + j)@.subrange(x + width, self.width() as int),
            forall|j: int| 0 <= j < self.height() && !(y <= j < y + height)
                ==> final(self.row_mut(j))@ == self.row_mut(j)@,
    {
        let ghost whole = self;
        let (above, lower) = self.into_hsplit(y);
        let ghost lower_rows = lower;
        let (band, below) = lower.into_hsplit(height);
        let ghost band_rows = band;
        let (left, rest) = band.into_vsplit(x);
        let ghost rest_rows = rest;
        let (part, right) = rest.into_vsplit(width);
        proof {
            assert forall|j: int| 0 <= j < height implies part.row_mut(j)@
                == whole.row_mut(y + j)@.subrange(x as int, x + width)
                && final(whole.row_mut(y + j))@ == whole.row_mut(y + j)@.subrange(0, x as int)
                    + final(part.row_mut(j))@
                    + whole.row_mut(y + j)@.subrange(x + width, whole.width() as int) by {
                whole.lemma_row_mut(0, y + j);
                lower_rows.lemma_row_mut(0, j);
                band_rows.lemma_row_mut(0, j);
                rest_rows.lemma_row_mut(0, j);
                left.lemma_row_mut(0, j);
                right.lemma_row_mut(0, j);
                left.lemma_given_up(j);
                right.lemma_given_up(j);
                assert(band_rows.row_mut(j)@ == lower_rows.row_mut(j)@);
                assert(lower_rows.row_mut(j)@ == whole.row_mut(y + j)@);
                assert(rest_rows.row_mut(j)@ == band_rows.row_mut(j)@.subrange(x as int, whole.width() as int));
                assert(part.row_mut(j)@ =~= whole.row_mut(y + j)@.subrange(x as int, x + width));
                assert(left.row_mut(j)@ =~= whole.row_mut(y + j)@.subrange(0, x as int));
                assert(right.row_mut(j)@ =~= whole.row_mut(y + j)@.subrange(x + width, whole.width() as int));
                assert(final(rest_rows.row_mut(j))@ == final(part.row_mut(j))@ + final(right.row_mut(j))@);
                assert(final(band_rows.row_mut(j))@ == final(left.row_mut(j))@ + final(rest_rows.row_mut(j))@);
                assert(final(whole.row_mut(y + j))@ =~= whole.row_mut(y + j)@.subrange(0, x as int)
                    + final(part.row_mut(j))@
                    + whole.row_mut(y + j)@.subrange(x + width, whole.width() as int));
            }
            assert forall|j: int| 0 <= j < whole.height() && !(y <= j < y + height) implies
                final(whole.row_mut(j))@ == whole.row_mut(j)@ by {
                if j < y {
                    above.lemma_given_up(j);
                } else {
                    below.lemma_given_up(j - y - height);
                    assert(below.row_mut(j - y - height)@ == lower_rows.row_mut(height + (j - y - height))@);
                    assert(lower_rows.row_mut(j - y)@ == whole.row_mut(y + (j - y))@);
                }
            }
        }
        part
    }

    /// The whole window once more, borrowed from this one.
    pub(crate) fn reborrowed(&mut self) -> (r: MutableSlice<'_, T>)
        requires
            old(self).wf(),
        ensures
            r.wf(),
            final(self).wf(),
            r.x() == old(self).x(),
            r.y() == old(self).y(),
            r.width() == old(self).width(),
            r.height() == old(self).height(),
            final(self).x() == old(self).x(),
            final(self).y() == old(self).y(),
            final(self).width() == old(self).width(),
            final(self).height() == old(self).height(),
            forall|j: int| 0 <= j < r.height() ==> r.row_mut(j)@ == old(self).row_mut(j)@,
            forall|j: int| 0 <= j < r.height() ==> final(r.row_mut(j))@.len() == r.width(),
            forall|j: int| 0 <= j < r.height() ==> final(self).row_mut(j)@ == final(r.row_mut(j))@,
            forall|j: int| 0 <= j < r.height()
                ==> final(final(self).row_mut(j))@ == final(old(self).row_mut(j))@,
    {
        let x = self.x;
        let y = self.y;
        let width = self.width;
        let height = self.height;
        let ghost before = old(self)._mutability;
        let ghost after = final(self)._mutability;
        let rows = reborrow(&mut self._mutability.rows);
        proof {
            assert forall|j: int| 0 <= j < height implies rows@[j]@.len() == width by {
                assert(before.reach(j).len() == width);
            }
            assert forall|j: int| 0 <= j < height implies final(rows@[j])@.len() == width by {
                assert(before.reach(j).len() == width);
            }
            assert forall|j: int| 0 <= j < height implies (#[trigger] after.reach(j)).len() == width by {
                assert(after.rows@[j]@ == final(rows@[j])@);
            }
        }
        Slice { x, y, width, height, _mutability: Mutable { rows }, _cell: PhantomData }
    }

    /// The window given up for two: its rows above row `y`, and its rows
    /// from row `y` on. Each row goes to one of the two as it is.
    pub(crate) fn into_hsplit(self, y: usize) -> (r: (MutableSlice<'a, T>, MutableSlice<'a, T>))
        requires
            self.wf(),
            y <= self.height(),
        ensures
            r.0.wf(),
            r.1.wf(),
            r.0.x() == self.x() && r.0.y() == self.y(),
            r.0.width() == self.width() && r.0.height() == y,
            r.1.x() == self.x() && r.1.y() == self.y() + y,
            r.1.width() == self.width() && r.1.height() == self.height() - y,
            forall|j: int| 0 <= j < y ==> r.0.row_mut(j)@ == self.row_mut(j)@,
            forall|j: int| 0 <= j < y ==> final(r.0.row_mut(j))@ == final(self.row_mut(j))@,
            forall|j: int| 0 <= j < self.height() - y ==> r.1.row_mut(j)@ == self.row_mut(y + j)@,
            forall|j: int| 0 <= j < self.height() - y
                ==> final(r.1.row_mut(j))@ == final(self.row_mut(y + j))@,
    {
        let ghost whole = self._mutability;
        let (upper, lower) = cut_rows(self._mutability.rows, y);
        proof {
            assert forall|j: int| 0 <= j < y implies upper@[j]@.len() == self.width by {
                assert(whole.reach(j).len() == self.width);
            }
            assert forall|j: int| 0 <= j < self.height - y implies lower@[j]@.len() == self.width by {
                assert(whole.reach(y + j).len() == self.width);
            }
        }
        (
            Slice {
                x: self.x,
                y: self.y,
                width: self.width,
                height: y,
                _mutability: Mutable { rows: upper },
                _cell: PhantomData,
            },
            Slice {
                x: self.x,
                y: self.y + y,
                width: self.width,
                height: self.height - y,
                _mutability: Mutable { rows: lower },
                _cell: PhantomData,
            },
        )
    }

    /// The window given up for two: its columns left of column `x`, and
    /// its columns from column `x` on. Each row ends as the left part's row
    /// followed by the right part's.
    pub(crate) fn into_vsplit(self, x: usize) -> (r: (MutableSlice<'a, T>, MutableSlice<'a, T>))
        requires
            self.wf(),
            x <= self.width(),
        ensures
            r.0.wf(),
            r.1.wf(),
            r.0.x() == self.x() && r.0.y() == self.y(),
            r.0.width() == x && r.0.height() == self.height(),
            r.1.x() == self.x() + x && r.1.y() == self.y(),
            r.1.width() == self.width() - x && r.1.height() == self.height(),
            forall|j: int| 0 <= j < self.height()
                ==> r.0.row_mut(j)@ == self.row_mut(j)@.subrange(0, x as int),
            forall|j: int| 0 <= j < self.height()
                ==> r.1.row_mut(j)@ == self.row_mut(j)@.subrange(x as int, self.width() as int),
            forall|j: int| 0 <= j < self.height() ==> final(r.0.row_mut(j))@.len() == x,
            forall|j: int| 0 <= j < self.height() ==> final(r.1.row_mut(j))@.len() == self.width() - x,
            forall|j: int| 0 <= j < self.height()
                ==> final(self.row_mut(j))@ == final(r.0.row_mut(j))@ + final(r.1.row_mut(j))@,
    {
        let ghost whole = self._mutability;
        proof {
            assert forall|j: int| 0 <= j < self.height implies whole.rows@[j]@.len() == self.width by {
                assert(whole.reach(j).len() == self.width);
            }
        }
        let (lefts, rights) = cut_columns(self._mutability.rows, x);
        (
            Slice {
                x: self.x,
                y: self.y,
                width: x,
                height: self.height,
                _mutability: Mutable { rows: lefts },
                _cell: PhantomData,
            },
            Slice {
                x: self.x + x,
                y: self.y,
                width: self.width - x,
                height: self.height,
                _mutability: Mutable { rows: rights },
                _cell: PhantomData,
            },
        )
    }
}

} // verus!
