use vstd::prelude::*;
use crate::cell::Cell;

verus! {

/// Walks the rows of a flat row-major table, `col_size` cells each.
pub struct DataFrameIterator<'a> {
    /// Actual data frame
    data_frame: &'a [Cell],
    /// Column size for iterating through each cell
    col_size: usize,
    /// Index that points to current cell
    index: usize,
}

impl<'a> DataFrameIterator<'a> {
    /// Cells of the table.
    pub closed spec fn cells(&self) -> Seq<Cell> {
        self.data_frame@
    }

    /// Cells per row.
    pub closed spec fn width(&self) -> int {
        self.col_size as int
    }

    /// Position of the next row's first cell.
    pub closed spec fn position(&self) -> int {
        self.index as int
    }

    /// The table has whole rows and the position is a row start.
    pub open spec fn wf(&self) -> bool {
        &&& self.width() > 0
        &&& self.cells().len() as int % self.width() == 0
        &&& self.position() % self.width() == 0
        &&& 0 <= self.position() <= self.cells().len()
    }

    /// A row iterator over rows of `col_size` cells.
    pub fn new(data_frame: &'a [Cell], col_size: usize) -> (r: Self)
        requires
            col_size > 0,
            data_frame@.len() as int % col_size as int == 0,
        ensures
            r.cells() == data_frame@,
            r.width() == col_size,
            r.position() == 0,
            r.wf(),
    {
        Self { data_frame, col_size, index: 0 }
    }

    /// The next row, if any.
    pub fn next(&mut self) -> (r: Option<&'a [Cell]>)
        requires
            old(self).wf(),
        ensures
            final(self).wf(),
            final(self).cells() == old(self).cells(),
            final(self).width() == old(self).width(),
            old(self).position() >= old(self).cells().len() ==> r is None && final(self).position()
                == old(self).position(),
            old(self).position() < old(self).cells().len() ==> (r matches Some(row) && row@
                == old(self).cells().subrange(
                old(self).position(),
                old(self).position() + old(self).width(),
            ) && final(self).position() == old(self).position() + old(self).width()),
    {
        if self.index >= self.data_frame.len() {
            None
        } else {
            proof {
                lemma_next_row_fits(self.index as int, self.col_size as int, self.data_frame@.len() as int);
            }
            let cell_slice = &self.data_frame[self.index..self.index + self.col_size];
            self.index += self.col_size;
            proof {
                vstd::arithmetic::div_mod::lemma_mod_adds(
                    self.index - self.col_size,
                    self.col_size as int,
                    self.col_size as int,
                );
                vstd::arithmetic::div_mod::lemma_mod_self_0(self.col_size as int);
            }
            Some(cell_slice)
        }
    }

    /// Exact number of rows still to come, as lower and upper bound.
    pub fn size_hint(&self) -> (r: (usize, Option<usize>))
        requires
            self.wf(),
        ensures
            r.0 == (self.cells().len() - self.position()) / self.width(),
            r.1 == Some(r.0),
    {
        let remainder_size = (self.data_frame.len() - self.index) / self.col_size;
        (remainder_size, Some(remainder_size))
    }

    /// Row `n` of the table, if there is one.
    pub fn nth(&mut self, n: usize) -> (r: Option<&'a [Cell]>)
        requires
            old(self).wf(),
        ensures
            *final(self) == *old(self),
            n >= old(self).cells().len() as int / old(self).width() ==> r is None,
            n < old(self).cells().len() as int / old(self).width() ==> (r matches Some(row) && row@
                == old(self).cells().subrange(
                n * old(self).width(),
                n * old(self).width() + old(self).width(),
            )),
    {
        if n >= self.data_frame.len() / self.col_size {
            None
        } else {
            proof {
                let w = self.col_size as int;
                let l = self.data_frame@.len() as int;
                assert(n * w + w <= l) by (nonlinear_arith)
                    requires w > 0, l % w == 0, 0 <= n, n < l / w, l >= 0,
                {
                    vstd::arithmetic::div_mod::lemma_fundamental_div_mod(l, w);
                    assert(n + 1 <= l / w);
                    assert((n + 1) * w <= (l / w) * w);
                }
            }
            let start = n * self.col_size;
            let cell_slice = &self.data_frame[start..start + self.col_size];
            Some(cell_slice)
        }
    }
}

/// A row that starts before the end of a table of whole rows ends within it.
proof fn lemma_next_row_fits(i: int, w: int, l: int)
    requires
        w > 0,
        0 <= i < l,
        i % w == 0,
        l % w == 0,
    ensures
        i + w <= l,
{
    vstd::arithmetic::div_mod::lemma_fundamental_div_mod(i, w);
    vstd::arithmetic::div_mod::lemma_fundamental_div_mod(l, w);
    assert(i / w < l / w) by (nonlinear_arith)
        requires i == w * (i / w), l == w * (l / w), i < l, w > 0,
    {}
    assert(i + w <= l) by (nonlinear_arith)
        requires i == w * (i / w), l == w * (l / w), i / w + 1 <= l / w, w > 0,
    {}
}

} // verus!
