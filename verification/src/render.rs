//! Grids and windows as text: a list of rows, each a list of cells.

use core::fmt::{Debug, Error, Formatter};
use vstd::prelude::*;
use vstd::string::StringExecFns;

use crate::grid::VecVec;
use crate::view::{Capability, Slice};

verus! {

/// The text of one cell.
///
/// Trusted: the body is `format!` with `{:?}`, which writes what the `Debug`
/// impl of `T` writes. That impl is the cell type's own, so the contract
/// claims nothing of the text.
#[verifier::external_body]
fn debug_text<T: Debug>(value: &T) -> (r: String) {
    format!("{:?}", value)
}

/// Trusted: stands for `core::fmt::Formatter`, which Verus carries through
/// without looking inside.
#[verifier::external_type_specification]
#[verifier::external_body]
pub struct ExFormatter<'a>(Formatter<'a>);

/// Trusted: stands for `core::fmt::Error`, which Verus carries through
/// without looking inside.
#[verifier::external_type_specification]
#[verifier::external_body]
pub struct ExError(Error);

/// Hands a text to a formatter.
///
/// Trusted: the body is `Formatter::write_str`. Whether the formatter takes
/// the text is its own matter, so the contract claims nothing of the
/// result.
#[verifier::external_body]
fn write_text(f: &mut Formatter<'_>, text: &str) -> (r: Result<(), Error>) {
    f.write_str(text)
}

/// The texts that a vector of strings holds.
pub open spec fn texts(items: &Vec<String>) -> Seq<Seq<char>> {
    Seq::new(items@.len(), |k: int| items@[k]@)
}

/// The items one after the other, with a comma and a space between each
/// two.
pub open spec fn joined(items: Seq<Seq<char>>) -> Seq<char>
    decreases items.len(),
{
    if items.len() == 0 {
        Seq::empty()
    } else if items.len() == 1 {
        items[0]
    } else {
        joined(items.drop_last()) + ", "@ + items.last()
    }
}

/// The items as a list: joined, between square brackets.
pub open spec fn listed(items: Seq<Seq<char>>) -> Seq<char> {
    "["@ + joined(items) + "]"@
}

/// Rows of cells as a list of lists.
pub open spec fn nested(cells: Seq<Seq<Seq<char>>>) -> Seq<char> {
    listed(Seq::new(cells.len(), |j: int| listed(cells[j])))
}

/// Whether `text` is a list of `height` rows of `width` cells each, for
/// some texts of the cells.
pub open spec fn is_listing(text: Seq<char>, width: int, height: int) -> bool {
    exists|cells: Seq<Seq<Seq<char>>>|
        {
            &&& cells.len() == height
            &&& forall|j: int| 0 <= j < cells.len() ==> (#[trigger] cells[j]).len() == width
            &&& text == nested(cells)
        }
}

/// The items as a list.
pub fn list(items: &Vec<String>) -> (r: String)
    ensures
        r@ == listed(texts(items)),
{
    let mut out = String::from_str("[");
    let mut k: usize = 0;
    while k < items.len()
        invariant
            k <= items@.len(),
            out@ == "["@ + joined(texts(items).take(k as int)),
        decreases items@.len() - k,
    {
        proof {
            let before = texts(items).take(k as int);
            let after = texts(items).take(k + 1);
            assert(after.drop_last() =~= before);
            assert(after.last() == items@[k as int]@);
            if k > 0 {
                assert(("["@ + joined(before)) + ", "@ + items@[k as int]@ =~= "["@ + joined(after));
            } else {
                assert(joined(before) =~= Seq::<char>::empty());
                assert("["@ + joined(before) + items@[k as int]@ =~= "["@ + joined(after));
            }
        }
        if k > 0 {
            out.append(", ");
        }
        out.append(items[k].as_str());
        k += 1;
    }
    proof {
        assert(texts(items).take(items@.len() as int) =~= texts(items));
    }
    out.append("]");
    out
}

/// The texts that rows of strings hold.
pub open spec fn row_texts(cells: &Vec<Vec<String>>) -> Seq<Seq<Seq<char>>> {
    Seq::new(cells@.len(), |j: int| texts(&cells@[j]))
}

/// Rows of cells as a list of lists.
pub fn listing(cells: &Vec<Vec<String>>) -> (r: String)
    ensures
        r@ == nested(row_texts(cells)),
{
    let mut rows: Vec<String> = Vec::new();
    let mut j: usize = 0;
    while j < cells.len()
        invariant
            j <= cells@.len(),
            rows@.len() == j,
            forall|k: int| 0 <= k < j ==> (#[trigger] rows@[k])@ == listed(texts(&cells@[k])),
        decreases cells@.len() - j,
    {
        let row = list(&cells[j]);
        rows.push(row);
        j += 1;
    }
    let out = list(&rows);
    proof {
        assert(texts(&rows) =~= Seq::new(row_texts(cells).len(), |k: int| listed(row_texts(cells)[k])));
    }
    out
}

impl<T: Debug, Mutability: Capability<T>> Slice<T, Mutability> {
    /// The window as text: the list of its rows from the top, each the
    /// list of its cells from the left, each cell as its type writes it.
    pub fn debug_string(&self) -> (r: String)
        requires
            self.wf(),
        ensures
            is_listing(r@, self.width() as int, self.height() as int),
    {
        let mut cells: Vec<Vec<String>> = Vec::new();
        let mut y: usize = 0;
        while y < self.height()
            invariant
                self.wf(),
                y <= self.height(),
                cells@.len() == y,
                forall|j: int| 0 <= j < y ==> (#[trigger] cells@[j])@.len() == self.width(),
            decreases self.height() - y,
        {
            let mut row: Vec<String> = Vec::new();
            let mut x: usize = 0;
            while x < self.width()
                invariant
                    self.wf(),
                    y < self.height(),
                    x <= self.width(),
                    row@.len() == x,
                decreases self.width() - x,
            {
                match self.get(x, y) {
                    Some(cell) => {
                        row.push(debug_text(cell));
                    },
                    None => {},
                }
                x += 1;
            }
            cells.push(row);
            y += 1;
        }
        let out = listing(&cells);
        proof {
            let found = row_texts(&cells);
            assert(found.len() == self.height());
            assert forall|j: int| 0 <= j < found.len() implies (#[trigger] found[j]).len() == self.width() by {
                assert(cells@[j]@.len() == self.width());
            }
            assert(out@ == nested(found));
        }
        out
    }
}

impl<T: Debug> VecVec<T> {
    /// The grid as text: the list of its rows from the top, each the list
    /// of its cells from the left, each cell as its type writes it.
    pub fn debug_string(&self) -> (r: String)
        requires
            self.wf(),
        ensures
            is_listing(r@, self.width() as int, self.height() as int),
    {
        self.as_slice().debug_string()
    }
}

impl<T: Debug, Mutability: Capability<T>> Debug for Slice<T, Mutability> {
    /// Writes the window as `debug_string` gives it.
    fn fmt(&self, f: &mut Formatter<'_>) -> (r: Result<(), Error>) {
        if self.is_sound() {
            let text = self.debug_string();
            write_text(f, text.as_str())
        } else {
            Ok(())
        }
    }
}

impl<T: Debug> Debug for VecVec<T> {
    /// Writes the grid as `debug_string` gives it.
    fn fmt(&self, f: &mut Formatter<'_>) -> (r: Result<(), Error>) {
        if self.is_sound() {
            let text = self.debug_string();
            write_text(f, text.as_str())
        } else {
            Ok(())
        }
    }
}

} // verus!
