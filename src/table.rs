//! The whole parse: header, data rows, shards, and the table they fill.
use vstd::prelude::*;
use crate::cell::{Cell, CellType, CellView, merge};
use crate::dframe::DataFrame;
use crate::header::{header_end, header_of};
use crate::parser::{CsvParser, ParseError, cells_written, texts, string_views, types_merged};
use crate::partition::{bound, rows, sum_rows};
use crate::scan::{
    col_merge, field_cell, field_ok, field_types, tokens, trim, trim_ascii, Field,
};

verus! {

/// The data rows of `buf`, without surrounding whitespace.
pub open spec fn data_of(buf: Seq<u8>) -> Seq<u8> {
    trim(buf.subrange(header_end(buf), buf.len() as int))
}

/// Shard `k` of `n` of the data.
pub open spec fn shard_of(data: Seq<u8>, n: int, k: int) -> Seq<u8> {
    data.subrange(bound(data, n, k), bound(data, n, k + 1))
}

/// The first `cap` cells of fields `fs`, empty past their end.
pub open spec fn padded(fs: Seq<Field>, cap: int) -> Seq<CellView> {
    Seq::new(
        cap as nat,
        |j: int|
            if j < fs.len() {
                field_cell(fs[j])
            } else {
                CellView::Null
            },
    )
}

/// Cells of shard `k`: one row of `cols` cells for each of its rows.
pub open spec fn shard_cells(data: Seq<u8>, n: int, k: int, cols: int) -> Seq<CellView> {
    let s = shard_of(data, n, k);
    padded(tokens(s), rows(s) * cols)
}

/// Cells of the first `k` shards, in order.
pub open spec fn table_cells(data: Seq<u8>, n: int, cols: int, k: int) -> Seq<CellView>
    decreases k,
{
    if k <= 0 {
        Seq::empty()
    } else {
        table_cells(data, n, cols, k - 1) + shard_cells(data, n, k - 1, cols)
    }
}

/// Column types that shard `k` infers from the cells it writes.
pub open spec fn shard_types(data: Seq<u8>, n: int, k: int, cols: int) -> Seq<CellType> {
    let s = shard_of(data, n, k);
    let fs = tokens(s);
    let cap = rows(s) * cols;
    Seq::new(
        cols as nat,
        |c: int|
            col_merge(
                field_types(fs).take(
                    if fs.len() < cap {
                        fs.len() as int
                    } else {
                        cap
                    },
                ),
                cols,
                c,
            ),
    )
}

/// Column types of the first `k` shards, merged column by column.
pub open spec fn table_types(data: Seq<u8>, n: int, cols: int, k: int) -> Seq<CellType>
    decreases k,
{
    if k <= 0 {
        Seq::new(cols as nat, |c: int| CellType::Null)
    } else {
        Seq::new(
            cols as nat,
            |c: int| merge(table_types(data, n, cols, k - 1)[c], shard_types(data, n, k - 1, cols)[c]),
        )
    }
}

/// Every field of shard `k` converts.
pub open spec fn shard_ok(data: Seq<u8>, n: int, k: int) -> bool {
    forall|j: int|
        0 <= j < tokens(shard_of(data, n, k)).len() ==> field_ok(
            #[trigger] tokens(shard_of(data, n, k))[j],
        )
}

/// Views of a run of cells.
pub open spec fn cell_views(v: Seq<Cell>) -> Seq<CellView> {
    v.map_values(|c: Cell| c@)
}

proof fn lemma_sum_rows_mono(d: Seq<(usize, usize, usize)>, k: int)
    requires
        0 <= k <= d.len(),
    ensures
        sum_rows(d.take(k)) <= sum_rows(d),
    decreases d.len() - k,
{
    if k < d.len() {
        lemma_sum_rows_mono(d, k + 1);
        assert(d.take(k + 1).drop_last() =~= d.take(k));
    } else {
        assert(d.take(k) =~= d);
    }
}

/// Every run has `cols` column types.
pub open spec fn all_of_width(v: Seq<Vec<CellType>>, cols: int) -> bool {
    forall|k: int| 0 <= k < v.len() ==> (#[trigger] v[k])@.len() == cols
}

/// Views of runs of column types.
pub open spec fn shard_type_views(v: Seq<Vec<CellType>>) -> Seq<Seq<CellType>> {
    v.map_values(|t: Vec<CellType>| t@)
}

/// Column-wise merge of runs of column types, starting from `Null`.
pub open spec fn fold_columns(ts: Seq<Seq<CellType>>, cols: int) -> Seq<CellType>
    decreases ts.len(),
{
    if ts.len() == 0 {
        Seq::new(cols as nat, |c: int| CellType::Null)
    } else {
        Seq::new(
            cols as nat,
            |c: int| merge(fold_columns(ts.drop_last(), cols)[c], ts.last()[c]),
        )
    }
}

proof fn lemma_sum_shard_rows_mono(data: Seq<u8>, n: int, a: int, b: int)
    requires
        0 <= a <= b,
    ensures
        sum_shard_rows(data, n, a) <= sum_shard_rows(data, n, b),
    decreases b - a,
{
    if a < b {
        lemma_sum_shard_rows_mono(data, n, a, b - 1);
    }
}

/// A region of empty cells that received fields `fs` holds them padded.
proof fn lemma_region_padded(new: Seq<Cell>, fs: Seq<Field>, cap: int)
    requires
        new.len() == cap,
        exists|old: Seq<Cell>|
            cells_written(old, new, fs) && forall|j: int|
                0 <= j < cap ==> (#[trigger] old[j])@ == CellView::Null,
    ensures
        cell_views(new) == padded(fs, cap),
{
    let old = choose|old: Seq<Cell>|
        cells_written(old, new, fs) && forall|j: int|
            0 <= j < cap ==> (#[trigger] old[j])@ == CellView::Null;
    assert forall|j: int| 0 <= j < cap implies cell_views(new)[j] == padded(fs, cap)[j] by {
        assert(new[j]@ == (if j < fs.len() {
            field_cell(fs[j])
        } else {
            old[j]@
        }));
    }
    assert(cell_views(new) =~= padded(fs, cap));
}

proof fn lemma_sum_rows_nonneg(d: Seq<(usize, usize, usize)>)
    ensures
        sum_rows(d) >= 0,
    decreases d.len(),
{
    if d.len() > 0 {
        lemma_sum_rows_nonneg(d.drop_last());
    }
}

/// Rows of the first `k` shards.
pub open spec fn sum_shard_rows(data: Seq<u8>, n: int, k: int) -> int
    decreases k,
{
    if k <= 0 {
        0
    } else {
        sum_shard_rows(data, n, k - 1) + rows(shard_of(data, n, k - 1))
    }
}

proof fn lemma_sum_rows_prefix(
    data: Seq<u8>,
    n: int,
    d: Seq<(usize, usize, usize)>,
    k: int,
)
    requires
        0 <= k <= d.len(),
        forall|j: int|
            0 <= j < d.len() ==> (#[trigger] d[j]).1 == bound(data, n, j) && d[j].2 == bound(
                data,
                n,
                j + 1,
            ),
        forall|j: int|
            0 <= j < d.len() ==> (#[trigger] d[j]).0 == rows(
                data.subrange(d[j].1 as int, d[j].2 as int),
            ),
    ensures
        sum_rows(d.take(k)) == sum_shard_rows(data, n, k),
    decreases k,
{
    if k > 0 {
        assert(d.take(k).drop_last() =~= d.take(k - 1));
        lemma_sum_rows_prefix(data, n, d, k - 1);
    }
}

impl<'a> CsvParser<'a> {
    /// `size` empty cells.
    fn null_cells(size: usize) -> (r: Vec<Cell>)
        ensures
            r@.len() == size,
            forall|j: int| 0 <= j < size ==> (#[trigger] r@[j])@ == CellView::Null,
    {
        let mut r: Vec<Cell> = Vec::new();
        let mut i: usize = 0;
        while i < size
            invariant
                i <= size,
                r@.len() == i,
                forall|j: int| 0 <= j < i ==> (#[trigger] r@[j])@ == CellView::Null,
            decreases size - i,
        {
            r.push(Cell::Null);
            i += 1;
        }
        r
    }

    /// `cols` column types, all `Null`.
    fn null_types(cols: usize) -> (r: Vec<CellType>)
        ensures
            r@ == Seq::new(cols as nat, |c: int| CellType::Null),
    {
        let mut r: Vec<CellType> = Vec::new();
        let mut i: usize = 0;
        while i < cols
            invariant
                i <= cols,
                r@ == Seq::new(i as nat, |c: int| CellType::Null),
            decreases cols - i,
        {
            r.push(CellType::Null);
            i += 1;
            assert(r@ =~= Seq::new(i as nat, |c: int| CellType::Null));
        }
        r
    }

    /// Merges `observed` into `acc`, column by column.
    fn merge_types(acc: &mut Vec<CellType>, observed: &Vec<CellType>)
        requires
            old(acc)@.len() == observed@.len(),
        ensures
            final(acc)@ == Seq::new(
                observed@.len(),
                |c: int| merge(old(acc)@[c], observed@[c]),
            ),
    {
        let n = observed.len();
        let mut c: usize = 0;
        while c < n
            invariant
                c <= n,
                n == observed@.len(),
                acc@.len() == n,
                forall|j: int| 0 <= j < c ==> #[trigger] acc@[j] == merge(old(acc)@[j], observed@[j]),
                forall|j: int| c <= j < n ==> #[trigger] acc@[j] == old(acc)@[j],
            decreases n - c,
        {
            let v = Self::agg_type(acc[c], observed[c]);
            acc.set(c, v);
            c += 1;
        }
        assert(acc@ =~= Seq::new(observed@.len(), |c: int| merge(old(acc)@[c], observed@[c])));
    }

    /// Sum of the row counts of shard descriptors.
    fn total_rows(shards: &Vec<(usize, usize, usize)>, data: Ghost<Seq<u8>>) -> (r: usize)
        requires
            sum_rows(shards@) == rows(data@),
            data@.len() < usize::MAX,
        ensures
            r == sum_rows(shards@),
    {
        let total_threads = shards.len();
        let mut total_rows: usize = 0;
        let mut k: usize = 0;
        proof {
            crate::partition::lemma_count_lf_bound(crate::scan::input_of(data@));
        }
        while k < total_threads
            invariant
                k <= total_threads,
                shards@.len() == total_threads,
                total_rows == sum_rows(shards@.take(k as int)),
                sum_rows(shards@) == rows(data@),
                rows(data@) <= data@.len() + 1,
                data@.len() < usize::MAX,
            decreases total_threads - k,
        {
            assert(shards@.take(k + 1).drop_last() =~= shards@.take(k as int));
            proof {
                lemma_sum_rows_mono(shards@, k as int + 1);
            }
            total_rows = total_rows + shards[k].0;
            k += 1;
        }
        assert(shards@.take(total_threads as int) =~= shards@);
        total_rows
    }

    /// Allocates the table's `size` cells, empty, and fills each shard's
    /// region of them in turn, merging the shards' column types.
    fn fill_table(
        data: &[u8],
        shards: &Vec<(usize, usize, usize)>,
        cols: usize,
        total_rows: usize,
        size: usize,
    ) -> (r: Result<(Vec<Cell>, Vec<CellType>), ParseError>)
        requires
            cols > 0,
            size == total_rows * cols,
            data@.len() < usize::MAX,
            shards@.len() > 0,
            total_rows == sum_shard_rows(data@, shards@.len() as int, shards@.len() as int),
            forall|j: int|
                0 <= j < shards@.len() ==> (#[trigger] shards@[j]).1 == bound(data@, shards@.len() as int, j)
                    && shards@[j].2 == bound(data@, shards@.len() as int, j + 1),
            forall|j: int| 0 <= j < shards@.len() ==> (#[trigger] shards@[j]).1 <= shards@[j].2,
            forall|j: int| 0 <= j < shards@.len() ==> (#[trigger] shards@[j]).2 <= data@.len(),
            forall|j: int|
                0 <= j < shards@.len() ==> (#[trigger] shards@[j]).0 == rows(
                    data@.subrange(shards@[j].1 as int, shards@[j].2 as int),
                ),
        ensures
            ({
                let n = shards@.len() as int;
                &&& (r is Ok <==> forall|k: int| 0 <= k < n ==> shard_ok(data@, n, k))
                &&& r is Err ==> r == Err::<(Vec<Cell>, Vec<CellType>), ParseError>(ParseError::MalformedNumber)
                &&& r matches Ok((cells, types)) ==> {
                    &&& cells@.len() == size
                    &&& cell_views(cells@) == table_cells(data@, n, cols as int, n)
                    &&& types@ == table_types(data@, n, cols as int, n)
                }
            }),
    {
        let total_threads = shards.len();
        let ghost n = total_threads as int;
        let mut result = Self::null_cells(size);
        let mut final_types = Self::null_types(cols);
        let mut off: usize = 0;
        let mut k: usize = 0;
        while k < total_threads
            invariant
                k <= total_threads,
                cols > 0,
                shards@.len() == total_threads,
                result@.len() == size,
                size == total_rows * cols,
                off == sum_shard_rows(data@, n, k as int) * cols,
                off <= size,
                cell_views(result@.subrange(0, off as int)) == table_cells(data@, n, cols as int, k as int),
                forall|j: int| off <= j < size ==> (#[trigger] result@[j])@ == CellView::Null,
                final_types@ == table_types(data@, n, cols as int, k as int),
                forall|j: int| 0 <= j < k ==> shard_ok(data@, n, j),
                total_rows == sum_shard_rows(data@, n, n),
                n == total_threads,
                forall|j: int|
                    0 <= j < total_threads ==> (#[trigger] shards@[j]).1 == bound(data@, n, j)
                        && shards@[j].2 == bound(data@, n, j + 1),
                forall|j: int| 0 <= j < total_threads ==> (#[trigger] shards@[j]).1 <= shards@[j].2,
                forall|j: int| 0 <= j < total_threads ==> (#[trigger] shards@[j]).2 <= data@.len(),
                forall|j: int|
                    0 <= j < total_threads ==> (#[trigger] shards@[j]).0 == rows(
                        data@.subrange(shards@[j].1 as int, shards@[j].2 as int),
                    ),
                data@.len() < usize::MAX,
            decreases total_threads - k,
        {
            let (c, st, ed) = shards[k];
            proof {
                lemma_sum_shard_rows_mono(data@, n, k as int + 1, n);
                let a = sum_shard_rows(data@, n, k as int);
                assert(sum_shard_rows(data@, n, k as int + 1) == a + c);
                assert((a + c) * cols <= total_rows * cols) by (nonlinear_arith)
                    requires a + c <= total_rows, cols > 0,
                {}
                assert((a + c) * cols == a * cols + c * cols) by (nonlinear_arith);
                assert(c * cols >= 0) by (nonlinear_arith)
                    requires c >= 0, cols > 0,
                {}
            }
            let len_k = c * cols;
            let mut observed = Self::null_types(cols);
            let shard = &data[st..ed];
            let ghost before = result@;
            match Self::fill_shard(&mut result, off, len_k, shard, &mut observed) {
                Err(_) => {
                    proof {
                        assert(shard@ == shard_of(data@, n, k as int));
                        assert(!shard_ok(data@, n, k as int));
                    }
                    return Err(ParseError::MalformedNumber);
                },
                Ok(()) => {},
            }
            proof {
                assert(shard@ == shard_of(data@, n, k as int));
                assert(shard_ok(data@, n, k as int));
                assert forall|j: int| 0 <= j < len_k implies (#[trigger] before.subrange(
                    off as int,
                    off + len_k,
                )[j])@ == CellView::Null by {
                    assert(before.subrange(off as int, off + len_k)[j] == before[off + j]);
                }
            }
            let ghost pre_types = final_types@;
            Self::merge_types(&mut final_types, &observed);
            proof {
                let fs = tokens(shard@);
                assert(shard@ == shard_of(data@, n, k as int));
                let region = result@.subrange(off as int, off + len_k);
                lemma_region_padded(region, fs, len_k as int);
                let cap = if fs.len() < len_k {
                    fs.len() as int
                } else {
                    len_k as int
                };
                assert(observed@ =~= shard_types(data@, n, k as int, cols as int)) by {
                    assert forall|cc: int| 0 <= cc < cols implies observed@[cc] == shard_types(
                        data@,
                        n,
                        k as int,
                        cols as int,
                    )[cc] by {
                        crate::cell::lemma_merge_laws(
                            col_merge(field_types(fs).take(cap), cols as int, cc),
                            CellType::Null,
                            CellType::Null,
                        );
                    }
                }
                assert(final_types@ =~= table_types(data@, n, cols as int, k + 1));
                let next = off + len_k;
                assert(result@.subrange(0, next as int) =~= result@.subrange(0, off as int)
                    + region);
                assert(cell_views(result@.subrange(0, next as int)) =~= cell_views(
                    result@.subrange(0, off as int),
                ) + cell_views(region));
                assert(table_cells(data@, n, cols as int, k + 1) == table_cells(
                    data@,
                    n,
                    cols as int,
                    k as int,
                ) + shard_cells(data@, n, k as int, cols as int));
                assert forall|j: int| next <= j < size implies (#[trigger] result@[j])@
                    == CellView::Null by {
                    assert(result@[j] == result@.subrange(next as int, size as int)[j - next]);
                }
            }
            off = off + len_k;
            k += 1;
        }
        proof {
            assert(off == size);
            assert(result@.subrange(0, off as int) =~= result@);
        }
        Ok((result, final_types))
    }

    /// Parses a whole buffer into a table, tokenizing its data rows shard by
    /// shard in `total_threads` line-aligned shards.
    ///
    /// Fails with `NoColumns` if the header names no column, with
    /// `TableTooLarge` if the table's cell count does not fit in `usize`, and
    /// with `MalformedNumber` if a field classified as an integer does not
    /// convert.
    pub fn parse_buffer(bytes: &[u8], total_threads: usize) -> (r: Result<DataFrame, ParseError>)
        requires
            total_threads > 0,
            bytes@.len() < usize::MAX,
        ensures
            ({
                let h = header_of(bytes@);
                let data = data_of(bytes@);
                let cols = h.0.len() as int;
                let n = total_threads as int;
                &&& (cols == 0 <==> r == Err::<DataFrame, ParseError>(ParseError::NoColumns))
                &&& cols > 0 && rows(data) * cols > usize::MAX ==> r == Err::<
                    DataFrame,
                    ParseError,
                >(ParseError::TableTooLarge)
                &&& cols > 0 && rows(data) * cols <= usize::MAX ==> {
                    &&& (r is Ok <==> forall|k: int| 0 <= k < n ==> shard_ok(data, n, k))
                    &&& r is Err ==> r == Err::<DataFrame, ParseError>(ParseError::MalformedNumber)
                }
                &&& r matches Ok(df) ==> {
                    &&& string_views(df.names()) == texts(h.0)
                    &&& cell_views(df.cells()) == table_cells(data, n, cols, n)
                    &&& df.types() == table_types(data, n, cols, n)
                }
            }),
    {
        let mut p = CsvParser::new(bytes);
        let (scanned_header, offset) = p.scan_header();
        let ghost h = header_of(bytes@);
        proof {
            assert(string_views(scanned_header@) =~= texts(h.0));
        }
        let cols = scanned_header.len();
        if cols == 0 {
            return Err(ParseError::NoColumns);
        }
        let next_pos = offset;
        let data = trim_ascii(&bytes[next_pos..bytes.len()]);
        let ghost n = total_threads as int;
        proof {
            assert(data@ == data_of(bytes@));
            crate::scan::lemma_trim_len(bytes@.subrange(next_pos as int, bytes@.len() as int));
        }
        let shards = Self::get_total_lines_in_a_file(data, total_threads);
        let total_rows = Self::total_rows(&shards, Ghost(data@));
        proof {
            lemma_sum_rows_prefix(data@, n, shards@, n);
            assert(shards@.take(n) =~= shards@);
        }
        let size = match total_rows.checked_mul(cols) {
            Some(v) => v,
            None => return Err(ParseError::TableTooLarge),
        };
        let (result, final_types) = match Self::fill_table(data, &shards, cols, total_rows, size) {
            Ok(v) => v,
            Err(e) => return Err(e),
        };
        proof {
            vstd::arithmetic::div_mod::lemma_mod_multiples_basic(total_rows as int, cols as int);
        }
        Ok(DataFrame::new(result, scanned_header, final_types))
    }

    /// Cuts `slice` into one disjoint view per shard, in order, each of
    /// `multiplier` cells per row of the shard; together they cover the
    /// first `rows * multiplier` cells of it.
    pub fn split_slices<'b, T>(
        slice: &'b mut [T],
        slice_info: &[(usize, usize, usize)],
        multiplier: usize,
    ) -> (r: Vec<&'b mut [T]>)
        requires
            sum_rows(slice_info@) * multiplier <= old(slice)@.len(),
        ensures
            r@.len() == slice_info@.len(),
            forall|k: int|
                0 <= k < slice_info@.len() ==> r@[k]@ == old(slice)@.subrange(
                    #[trigger] sum_rows(slice_info@.take(k)) * multiplier,
                    sum_rows(slice_info@.take(k + 1)) * multiplier,
                ),
    {
        let total = slice.len();
        let mut mut_slices: Vec<&'b mut [T]> = Vec::new();
        let mut rest: &'b mut [T] = slice;
        let mut k: usize = 0;
        let ghost whole = old(slice)@;
        let ghost mut curr_start: int = 0;
        while k < slice_info.len()
            invariant
                k <= slice_info@.len(),
                mut_slices@.len() == k,
                curr_start == sum_rows(slice_info@.take(k as int)) * multiplier,
                sum_rows(slice_info@) * multiplier <= whole.len(),
                whole.len() == total,
                rest@ == whole.subrange(curr_start, whole.len() as int),
                forall|j: int|
                    0 <= j < k ==> mut_slices@[j]@ == whole.subrange(
                        #[trigger] sum_rows(slice_info@.take(j)) * multiplier,
                        sum_rows(slice_info@.take(j + 1)) * multiplier,
                    ),
            decreases slice_info@.len() - k,
        {
            proof {
                assert(slice_info@.take(k + 1).drop_last() =~= slice_info@.take(k as int));
                lemma_sum_rows_mono(slice_info@, k + 1);
                lemma_sum_rows_nonneg(slice_info@.take(k as int));
                let a = sum_rows(slice_info@.take(k as int));
                let c = slice_info@[k as int].0 as int;
                assert((a + c) * multiplier <= sum_rows(slice_info@) * multiplier) by (
                nonlinear_arith)
                    requires a + c <= sum_rows(slice_info@), multiplier >= 0,
                {}
                assert((a + c) * multiplier == a * multiplier + c * multiplier) by (nonlinear_arith);
                assert(c * multiplier >= 0) by (nonlinear_arith)
                    requires c >= 0, multiplier >= 0,
                {}
                assert(a * multiplier >= 0) by (nonlinear_arith)
                    requires a >= 0, multiplier >= 0,
                {}
            }
            let len = slice_info[k].0 * multiplier;
            let (head, tail) = rest.split_at_mut(len);
            mut_slices.push(head);
            rest = tail;
            proof {
                curr_start = curr_start + len;
            }
            k += 1;
        }
        mut_slices
    }

    /// The data rows of `bytes` that follow the header line ending at
    /// `offset`, without surrounding whitespace.
    pub fn data_rows(bytes: &[u8], offset: usize) -> (r: &[u8])
        requires
            offset <= bytes@.len(),
        ensures
            r@ == trim(bytes@.subrange(offset as int, bytes@.len() as int)),
    {
        trim_ascii(&bytes[offset..bytes.len()])
    }

    /// Folds per-shard column types into one, column by column, starting
    /// from `Null`.
    pub fn fold_types(
        per_shard: &[Vec<CellType>],
        cols: usize,
    ) -> (r: Vec<CellType>)
        requires
            all_of_width(per_shard@, cols as int),
        ensures
            r@ == fold_columns(shard_type_views(per_shard@), cols as int),
    {
        let total = per_shard.len();
        let ghost views = shard_type_views(per_shard@);
        let mut acc = Self::null_types(cols);
        let mut k: usize = 0;
        while k < total
            invariant
                k <= total,
                total == per_shard@.len(),
                views == shard_type_views(per_shard@),
                all_of_width(per_shard@, cols as int),
                acc@ == fold_columns(views.take(k as int), cols as int),
            decreases per_shard@.len() - k,
        {
            Self::merge_types(&mut acc, &per_shard[k]);
            proof {
                assert(views.take(k + 1).drop_last() =~= views.take(k as int));
                assert(views.take(k + 1).last() == per_shard@[k as int]@);
                assert(acc@ =~= fold_columns(views.take(k + 1), cols as int));
            }
            k += 1;
        }
        assert(views.take(per_shard@.len() as int) =~= views);
        acc
    }

    /// Tokenizes shard `shard` into its region `off .. off + len` of `result`
    /// and merges its column types into `types`.
    fn fill_shard(
        result: &mut Vec<Cell>,
        off: usize,
        len: usize,
        shard: &[u8],
        types: &mut Vec<CellType>,
    ) -> (r: Result<(), ParseError>)
        requires
            off + len <= old(result)@.len(),
            old(types)@.len() > 0,
            shard@.len() < usize::MAX,
        ensures
            ({
                let fs = tokens(shard@);
                let region = final(result)@.subrange(off as int, off + len);
                &&& r is Ok <==> forall|j: int| 0 <= j < fs.len() ==> field_ok(#[trigger] fs[j])
                &&& r is Ok ==> final(result)@.len() == old(result)@.len()
                &&& r is Ok ==> final(result)@.subrange(0, off as int) == old(result)@.subrange(0, off as int)
                &&& r is Ok ==> final(result)@.subrange(off + len, old(result)@.len() as int)
                    == old(result)@.subrange(off + len, old(result)@.len() as int)
                &&& r is Ok ==> cells_written(old(result)@.subrange(off as int, off + len), region, fs)
                &&& r is Ok ==> types_merged(
                    old(types)@,
                    final(types)@,
                    fs,
                    if fs.len() < len {
                        fs.len() as int
                    } else {
                        len as int
                    },
                )
            }),
    {
        let mut parser = CsvParser::new(shard);
        let ghost before = result@;
        let whole = result.as_mut_slice();
        let (left, right) = whole.split_at_mut(off);
        let (region, tail) = right.split_at_mut(len);
        let ghost left_now = left@;
        let ghost tail_now = tail@;
        let ghost region_before = region@;
        let slots = types.as_mut_slice();
        let r = parser.parse_content_on_buffer(region, slots);
        proof {
            assert(left_now =~= before.subrange(0, off as int));
            assert(region_before =~= before.subrange(off as int, off + len));
            assert(tail_now =~= before.subrange(off + len, before.len() as int));
        }
        let ghost region_after = region@;
        assert(result@ =~= left_now + region_after + tail_now);
        assert(result@.subrange(0, off as int) =~= left_now);
        assert(result@.subrange(off as int, off + len) =~= region_after);
        assert(result@.subrange(off + len, before.len() as int) =~= tail_now);
        let ghost fs = tokens(shard@);
        assert(r is Ok <==> forall|j: int| 0 <= j < fs.len() ==> field_ok(#[trigger] fs[j]));
        assert(r is Ok ==> cells_written(before.subrange(off as int, off + len), region_after, fs));
        assert(r is Ok ==> types_merged(
                    old(types)@,
                    types@,
                    fs,
                    if fs.len() < len {
                        fs.len() as int
                    } else {
                        len as int
                    },
                ));
        r
    }
}

} // verus!
