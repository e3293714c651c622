//! Row and column access over a flat row-major table.
use vstd::prelude::*;
use crate::cell::Cell;

pub mod dframe_iter;
pub mod split_when;

verus! {

/// Walks one column of a flat row-major table: every `col_size`-th cell,
/// from the column's offset.
pub struct DataFrameColumnIterator<'a> {
    /// Actual data frame
    data_frame: &'a [Cell],
    /// Column size for iterating through each cell
    col_size: usize,
    /// Index that points to current cell
    index: usize,
}

impl<'a> DataFrameColumnIterator<'a> {
    /// Cells of the table.
    pub closed spec fn cells(&self) -> Seq<Cell> {
        self.data_frame@
    }

    /// Cells per row.
    pub closed spec fn width(&self) -> int {
        self.col_size as int
    }

    /// Position of the next cell.
    pub closed spec fn position(&self) -> int {
        self.index as int
    }

    /// The table has whole rows and the position is in bounds.
    pub open spec fn wf(&self) -> bool {
        &&& self.width() > 0
        &&& self.cells().len() as int % self.width() == 0
        &&& 0 <= self.position() <= self.cells().len() + self.width()
        &&& self.position() <= usize::MAX
    }

    /// Cells of this column still to come.
    pub open spec fn remaining(&self) -> int {
        if self.position() >= self.cells().len() {
            0
        } else {
            (self.cells().len() - self.position() + self.width() - 1) / self.width()
        }
    }

    /// A column iterator over column `offset` of rows of `col_size` cells.
    pub fn new(data_frame: &'a [Cell], col_size: usize, offset: usize) -> (r: Self)
        requires
            col_size > 0,
            data_frame@.len() as int % col_size as int == 0,
            offset < col_size,
        ensures
            r.cells() == data_frame@,
            r.width() == col_size,
            r.position() == offset,
            r.wf(),
    {
        Self { data_frame, col_size, index: offset }
    }

    /// The next cell of the column, if any.
    pub fn next(&mut self) -> (r: Option<&'a Cell>)
        requires
            old(self).wf(),
        ensures
            final(self).wf(),
            final(self).cells() == old(self).cells(),
            final(self).width() == old(self).width(),
            old(self).position() >= old(self).cells().len() ==> r is None && final(self).position()
                == old(self).position(),
            old(self).position() < old(self).cells().len() ==> r == Some(
                &old(self).cells()[old(self).position()],
            ) && final(self).position() == (if old(self).position() + old(self).width()
                <= old(self).cells().len() {
                old(self).position() + old(self).width()
            } else {
                old(self).cells().len() as int
            }),
    {
        if self.index >= self.data_frame.len() {
            None
        } else {
            let cell = &self.data_frame[self.index];
            if self.data_frame.len() - self.index >= self.col_size {
                self.index += self.col_size;
            } else {
                self.index = self.data_frame.len();
            }
            Some(cell)
        }
    }

    /// Exact number of cells still to come, as lower and upper bound.
    pub fn size_hint(&self) -> (r: (usize, Option<usize>))
        requires
            self.wf(),
        ensures
            r.0 == self.remaining(),
            r.1 == Some(r.0),
    {
        if self.index >= self.data_frame.len() {
            return (0, Some(0));
        }
        let rest = self.data_frame.len() - self.index;
        let whole = rest / self.col_size;
        let remainder_size = if rest % self.col_size != 0 {
            whole + 1
        } else {
            whole
        };
        proof {
            let w = self.col_size as int;
            let d = rest as int;
            assert((d + w - 1) / w == d / w + if d % w != 0 { 1int } else { 0int }) by (nonlinear_arith)
                requires w > 0, d > 0,
            {
                vstd::arithmetic::div_mod::lemma_fundamental_div_mod(d, w);
                vstd::arithmetic::div_mod::lemma_fundamental_div_mod(d + w - 1, w);
            }
            assert(whole <= rest) by (nonlinear_arith)
                requires whole == d / w, w > 0, d > 0, rest == d,
            {}
        }
        (remainder_size, Some(remainder_size))
    }

    /// The cell `n` rows after the current one, if there is one.
    pub fn nth(&mut self, n: usize) -> (r: Option<&'a Cell>)
        requires
            old(self).wf(),
        ensures
            *final(self) == *old(self),
            n >= old(self).remaining() ==> r is None,
            n < old(self).remaining() ==> r == Some(
                &old(self).cells()[old(self).position() + n * old(self).width()],
            ),
    {
        let (remaining, _) = self.size_hint();
        if n >= remaining {
            None
        } else {
            proof {
                lemma_within_rows(
                    n as int,
                    self.col_size as int,
                    self.data_frame@.len() - self.index,
                );
            }
            assert(remaining == self.remaining());
            let len = self.data_frame.len();
            assert(n * self.col_size + self.index < len);
            let start = n * self.col_size + self.index;
            Some(&self.data_frame[start])
        }
    }
}

/// The `n`-th step of width `w` from a point `d` cells before the end stays
/// in bounds while `n` is below the number of steps left.
proof fn lemma_within_rows(n: int, w: int, d: int)
    requires
        w > 0,
        d > 0,
        0 <= n < (d + w - 1) / w,
    ensures
        n * w < d,
        0 <= n * w,
{
    let q = (d + w - 1) / w;
    vstd::arithmetic::div_mod::lemma_fundamental_div_mod(d + w - 1, w);
    vstd::arithmetic::div_mod::lemma_mod_bound(d + w - 1, w);
    assert(n * w <= (q - 1) * w) by (nonlinear_arith)
        requires n <= q - 1, w > 0,
    {}
    assert((q - 1) * w == w * q - w) by (nonlinear_arith);
    assert(0 <= n * w) by (nonlinear_arith)
        requires n >= 0, w > 0,
    {}
}

} // verus!
