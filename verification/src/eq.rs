//! Equality of windows: by extent and cells alone.

use vstd::prelude::*;
use vstd::std_specs::cmp::{PartialEqSpec, PartialEqSpecImpl};

use crate::view::{Capability, Slice};

verus! {

impl<T: PartialEq, M1: Capability<T>, M2: Capability<T>> PartialEqSpecImpl<Slice<T, M2>> for Slice<T, M1> {
    open spec fn obeys_eq_spec() -> bool {
        <T as PartialEqSpec>::obeys_eq_spec()
    }

    /// Two windows are equal when they are as wide and as high as each
    /// other and hold equal cells at each place. Where they lie does not
    /// count, nor over which grid, nor what they may do.
    open spec fn eq_spec(&self, rhs: &Slice<T, M2>) -> bool {
        &&& self.wf()
        &&& rhs.wf()
        &&& self.width() == rhs.width()
        &&& self.height() == rhs.height()
        &&& forall|x: int, y: int| 0 <= x < self.width() && 0 <= y < self.height()
            ==> #[trigger] self.at(x, y).eq_spec(&rhs.at(x, y))
    }
}

impl<T: PartialEq, M1: Capability<T>, M2: Capability<T>> PartialEq<Slice<T, M2>> for Slice<T, M1> {
    fn eq(&self, rhs: &Slice<T, M2>) -> (r: bool) {
        if !self.is_sound() || !rhs.is_sound() {
            return false;
        }
        if self.width() != rhs.width() || self.height() != rhs.height() {
            return false;
        }
        let mut y: usize = 0;
        while y < self.height()
            invariant
                self.wf(),
                rhs.wf(),
                self.width() == rhs.width(),
                self.height() == rhs.height(),
                y <= self.height(),
                <T as PartialEqSpec>::obeys_eq_spec() ==> forall|i: int, j: int| 0 <= i < self.width() && 0 <= j < y
                    ==> #[trigger] self.at(i, j).eq_spec(&rhs.at(i, j)),
            decreases self.height() - y,
        {
            let mut x: usize = 0;
            while x < self.width()
                invariant
                    self.wf(),
                    rhs.wf(),
                    self.width() == rhs.width(),
                    self.height() == rhs.height(),
                    y < self.height(),
                    x <= self.width(),
                    <T as PartialEqSpec>::obeys_eq_spec() ==> forall|i: int, j: int| 0 <= i < self.width() && 0 <= j < y
                        ==> #[trigger] self.at(i, j).eq_spec(&rhs.at(i, j)),
                    <T as PartialEqSpec>::obeys_eq_spec() ==> forall|i: int| 0 <= i < x
                        ==> #[trigger] self.at(i, y as int).eq_spec(&rhs.at(i, y as int)),
                decreases self.width() - x,
            {
                match (self.get(x, y), rhs.get(x, y)) {
                    (Some(mine), Some(theirs)) => {
                        if *mine != *theirs {
                            return false;
                        }
                    },
                    _ => {
                        return false;
                    },
                }
                x += 1;
            }
            y += 1;
        }
        true
    }
}

impl<'a, T: PartialEq, M: Capability<T>> PartialEqSpecImpl<&'a [&'a [T]]> for Slice<T, M> {
    open spec fn obeys_eq_spec() -> bool {
        <T as PartialEqSpec>::obeys_eq_spec()
    }

    /// A window equals a list of rows when the list has as many rows as
    /// the window is high, each as long as the window is wide, and the
    /// cells are equal at each place.
    open spec fn eq_spec(&self, rhs: &&'a [&'a [T]]) -> bool {
        &&& self.wf()
        &&& rhs@.len() == self.height()
        &&& forall|y: int| 0 <= y < rhs@.len() ==> (#[trigger] rhs@[y])@.len() == self.width()
        &&& forall|x: int, y: int| 0 <= x < self.width() && 0 <= y < self.height()
            ==> #[trigger] self.at(x, y).eq_spec(&rhs@[y]@[x])
    }
}

impl<'a, T: PartialEq, M: Capability<T>> PartialEq<&'a [&'a [T]]> for Slice<T, M> {
    fn eq(&self, rhs: &&'a [&'a [T]]) -> (r: bool) {
        if !self.is_sound() {
            return false;
        }
        if rhs.len() != self.height() {
            return false;
        }
        let mut y: usize = 0;
        while y < self.height()
            invariant
                self.wf(),
                rhs@.len() == self.height(),
                y <= self.height(),
                forall|j: int| 0 <= j < y ==> (#[trigger] rhs@[j])@.len() == self.width(),
            decreases self.height() - y,
        {
            if rhs[y].len() != self.width() {
                return false;
            }
            y += 1;
        }
        let mut y: usize = 0;
        while y < self.height()
            invariant
                self.wf(),
                rhs@.len() == self.height(),
                y <= self.height(),
                forall|j: int| 0 <= j < rhs@.len() ==> (#[trigger] rhs@[j])@.len() == self.width(),
                <T as PartialEqSpec>::obeys_eq_spec() ==> forall|i: int, j: int| 0 <= i < self.width() && 0 <= j < y
                    ==> #[trigger] self.at(i, j).eq_spec(&rhs@[j]@[i]),
            decreases self.height() - y,
        {
            let row = rhs[y];
            let mut x: usize = 0;
            while x < self.width()
                invariant
                    self.wf(),
                    rhs@.len() == self.height(),
                    y < self.height(),
                    x <= self.width(),
                    row@ == rhs@[y as int]@,
                    row@.len() == self.width(),
                    forall|j: int| 0 <= j < rhs@.len() ==> (#[trigger] rhs@[j])@.len() == self.width(),
                    <T as PartialEqSpec>::obeys_eq_spec() ==> forall|i: int, j: int| 0 <= i < self.width() && 0 <= j < y
                        ==> #[trigger] self.at(i, j).eq_spec(&rhs@[j]@[i]),
                    <T as PartialEqSpec>::obeys_eq_spec() ==> forall|i: int| 0 <= i < x
                        ==> #[trigger] self.at(i, y as int).eq_spec(&rhs@[y as int]@[i]),
                decreases self.width() - x,
            {
                match self.get(x, y) {
                    Some(mine) => {
                        if *mine != row[x] {
                            return false;
                        }
                    },
                    None => {
                        return false;
                    },
                }
                x += 1;
            }
            y += 1;
        }
        true
    }
}

} // verus!
