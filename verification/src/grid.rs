//! Character grids: the rows of characters that a conversion selects.

use vstd::prelude::*;
use crate::error::ConversionError;

verus! {

/// Whether all rows have `cols` characters.
pub open spec fn rectangular(rows: Seq<Seq<char>>, cols: nat) -> bool {
    forall|r: int| 0 <= r < rows.len() ==> (#[trigger] rows[r]).len() == cols
}

/// The character sequences of a vector of rows.
pub open spec fn rows_view(rows: Seq<Vec<char>>) -> Seq<Seq<char>> {
    Seq::new(rows.len(), |r: int| rows[r]@)
}

/// A grid of characters, kept row by row. All rows have the same length.
#[derive(Debug, PartialEq, Eq)]
pub struct CharGrid {
    rows: Vec<Vec<char>>,
    cols: usize,
}

impl View for CharGrid {
    type V = Seq<Seq<char>>;

    closed spec fn view(&self) -> Seq<Seq<char>> {
        rows_view(self.rows@)
    }
}

impl CharGrid {
    #[verifier::type_invariant]
    spec fn inv(&self) -> bool {
        rectangular(self@, self.cols as nat)
    }

    /// Number of characters in each row.
    pub closed spec fn spec_cols(&self) -> nat {
        self.cols as nat
    }

    /// Makes a grid of `cols` columns from its rows. Fails with
    /// `InvalidConfiguration` where a row has another length.
    pub fn from_rows(rows: Vec<Vec<char>>, cols: usize) -> (r: Result<CharGrid, ConversionError>)
        ensures
            r is Ok <==> rectangular(rows_view(rows@), cols as nat),
            r matches Ok(g) ==> g@ == rows_view(rows@) && g.spec_cols() == cols,
            r matches Err(e) ==> e == ConversionError::InvalidConfiguration,
    {
        let mut i: usize = 0;
        while i < rows.len()
            invariant
                i <= rows.len(),
                forall|r: int| 0 <= r < i ==> (#[trigger] rows_view(rows@)[r]).len() == cols,
            decreases rows.len() - i,
        {
            if rows[i].len() != cols {
                assert(rows_view(rows@)[i as int].len() != cols);
                return Err(ConversionError::InvalidConfiguration);
            }
            i = i + 1;
        }
        Ok(CharGrid { rows, cols })
    }

    /// Number of rows.
    pub fn height(&self) -> (n: usize)
        ensures
            n == self@.len(),
    {
        self.rows.len()
    }

    /// Number of characters in each row.
    pub fn width(&self) -> (n: usize)
        ensures
            n == self.spec_cols(),
            rectangular(self@, n as nat),
    {
        proof {
            use_type_invariant(self);
        }
        self.cols
    }

    /// The characters of row `r`.
    pub fn row(&self, r: usize) -> (chars: &Vec<char>)
        requires
            r < self@.len(),
        ensures
            chars@ == self@[r as int],
            chars@.len() == self.spec_cols(),
    {
        proof {
            use_type_invariant(self);
            assert(self@[r as int].len() == self.cols);
        }
        &self.rows[r]
    }

    /// The character in row `r` and column `c`, or `None` outside the grid.
    pub fn get(&self, r: usize, c: usize) -> (ch: Option<char>)
        ensures
            ch == if r < self@.len() && c < self.spec_cols() {
                Some(self@[r as int][c as int])
            } else {
                None::<char>
            },
    {
        if r < self.rows.len() && c < self.cols {
            let row = self.row(r);
            Some(row[c])
        } else {
            None
        }
    }

    /// The rows of the grid.
    pub fn rows(&self) -> (rows: &Vec<Vec<char>>)
        ensures
            rows_view(rows@) == self@,
    {
        &self.rows
    }
}

} // verus!
