use vstd::prelude::*;
use crate::cell::{Cell, CellType};
use crate::iter::dframe_iter::DataFrameIterator;
use crate::iter::DataFrameColumnIterator;

verus! {

/// A parsed table: one flat row-major run of cells, the column names, and
/// the inferred type of each column. Every row has one cell per column.
pub struct DataFrame {
    /// Column data
    column_data: Vec<Cell>,
    /// Header name for each string
    header: Vec<String>,
    /// Data Type of each header type
    dtype: Vec<CellType>,
}

impl DataFrame {
    #[verifier::type_invariant]
    spec fn well_formed(self) -> bool {
        &&& self.header@.len() > 0
        &&& self.dtype@.len() == self.header@.len()
        &&& self.column_data@.len() as int % self.header@.len() as int == 0
    }

    /// Cells, row after row.
    pub closed spec fn cells(&self) -> Seq<Cell> {
        self.column_data@
    }

    /// Column names.
    pub closed spec fn names(&self) -> Seq<String> {
        self.header@
    }

    /// Column types.
    pub closed spec fn types(&self) -> Seq<CellType> {
        self.dtype@
    }

    /// A table of whole rows of `header.len()` cells.
    pub(crate) fn new(column_data: Vec<Cell>, header: Vec<String>, dtype: Vec<CellType>) -> (r:
        Self)
        requires
            header@.len() > 0,
            dtype@.len() == header@.len(),
            column_data@.len() as int % header@.len() as int == 0,
        ensures
            r.cells() == column_data@,
            r.names() == header@,
            r.types() == dtype@,
    {
        Self { column_data, header, dtype }
    }

    /// A table from its parts, if they have its shape: at least one column,
    /// one type per column, and whole rows of cells.
    pub fn from_parts(column_data: Vec<Cell>, header: Vec<String>, dtype: Vec<CellType>) -> (r:
        Option<Self>)
        ensures
            r is Some <==> (header@.len() > 0 && dtype@.len() == header@.len()
                && column_data@.len() as int % header@.len() as int == 0),
            r matches Some(t) ==> t.cells() == column_data@ && t.names() == header@ && t.types()
                == dtype@,
    {
        if header.len() == 0 || dtype.len() != header.len() || column_data.len() % header.len()
            != 0 {
            None
        } else {
            Some(Self::new(column_data, header, dtype))
        }
    }

    /// Iterator over the rows.
    pub fn iter(&self) -> (r: DataFrameIterator<'_>)
        ensures
            r.cells() == self.cells(),
            r.width() == self.names().len(),
            r.position() == 0,
            r.wf(),
    {
        proof {
            use_type_invariant(self);
        }
        DataFrameIterator::new(self.column_data.as_slice(), self.header.len())
    }

    /// Number of rows.
    pub fn len(&self) -> (r: usize)
        ensures
            r == self.cells().len() as int / self.names().len() as int,
    {
        proof {
            use_type_invariant(self);
        }
        self.column_data.len() / self.hlen()
    }

    /// Number of columns.
    pub fn hlen(&self) -> (r: usize)
        ensures
            r == self.names().len(),
            r > 0,
    {
        proof {
            use_type_invariant(self);
        }
        self.header.len()
    }

    /// Column names.
    pub fn header(&self) -> (r: &[String])
        ensures
            r@ == self.names(),
    {
        self.header.as_slice()
    }

    /// Column types.
    pub fn dtypes(&self) -> (r: &[CellType])
        ensures
            r@ == self.types(),
            r@.len() == self.names().len(),
    {
        proof {
            use_type_invariant(self);
        }
        self.dtype.as_slice()
    }

    /// Iterator over the cells of the first column named `col`; `None` if no
    /// column has that name.
    pub fn iter_col(&self, col: &str) -> (r: Option<DataFrameColumnIterator<'_>>)
        ensures
            r is None <==> forall|i: int| 0 <= i < self.names().len() ==> self.names()[i]@ != col@,
            r matches Some(it) ==> {
                &&& it.cells() == self.cells()
                &&& it.width() == self.names().len()
                &&& 0 <= it.position() < self.names().len()
                &&& self.names()[it.position()]@ == col@
                &&& forall|i: int| 0 <= i < it.position() ==> self.names()[i]@ != col@
                &&& it.wf()
            },
    {
        proof {
            use_type_invariant(self);
        }
        let target = col.to_owned();
        let n = self.header.len();
        let mut index: usize = 0;
        while index < n
            invariant
                index <= n,
                n == self.header@.len(),
                target@ == col@,
                n > 0,
                self.column_data@.len() as int % n as int == 0,
                forall|i: int| 0 <= i < index ==> self.header@[i]@ != col@,
            decreases n - index,
        {
            if self.header[index] == target {
                assert(self.names()[index as int]@ == col@);
                return Some(
                    DataFrameColumnIterator::new(self.column_data.as_slice(), n, index),
                );
            }
            index += 1;
        }
        None
    }
}

} // verus!
