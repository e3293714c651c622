//! Splitting the data rows into line-aligned shards, and counting the rows
//! of each.
use vstd::prelude::*;
use crate::parser::CsvParser;
use crate::scan::{input_of, LF};

verus! {

/// Number of line feeds in `s`.
pub open spec fn count_lf(s: Seq<u8>) -> nat
    decreases s.len(),
{
    if s.len() == 0 {
        0
    } else {
        count_lf(s.drop_last()) + if s.last() == LF {
            1nat
        } else {
            0nat
        }
    }
}

/// Rows of `s`: its lines, the last one counted whether or not a line feed
/// ends it.
pub open spec fn rows(s: Seq<u8>) -> nat {
    count_lf(input_of(s))
}

/// Position just past the first line feed at or after `p`, or the length.
pub open spec fn next_line_start(buf: Seq<u8>, p: int) -> int
    decreases buf.len() - p,
{
    if p < 0 || p >= buf.len() {
        buf.len() as int
    } else if buf[p] == LF {
        p + 1
    } else {
        next_line_start(buf, p + 1)
    }
}

/// A shard boundary: the start, the end, or just past a line feed.
pub open spec fn is_line_start(buf: Seq<u8>, b: int) -> bool {
    b == 0 || b == buf.len() || (0 < b <= buf.len() && buf[b - 1] == LF)
}

/// Boundary `k` of `n` shards of `buf`: `0`, then the approximate cut
/// `k * (len / n)` (or the previous boundary, if that is further) advanced
/// past the next line feed, and the length for `k >= n`.
pub open spec fn bound(buf: Seq<u8>, n: int, k: int) -> int
    decreases k,
{
    if k <= 0 {
        0
    } else if k >= n {
        buf.len() as int
    } else {
        let c = k * (buf.len() as int / n);
        let prev = bound(buf, n, k - 1);
        next_line_start(buf, if c >= prev {
            c
        } else {
            prev
        })
    }
}

/// Sum of the row counts of shard descriptors.
pub open spec fn sum_rows(d: Seq<(usize, usize, usize)>) -> int
    decreases d.len(),
{
    if d.len() == 0 {
        0
    } else {
        sum_rows(d.drop_last()) + d.last().0
    }
}

pub proof fn lemma_count_lf_append(s: Seq<u8>, t: Seq<u8>)
    ensures
        count_lf(s + t) == count_lf(s) + count_lf(t),
    decreases t.len(),
{
    if t.len() == 0 {
        assert(s + t =~= s);
    } else {
        assert((s + t).drop_last() =~= s + t.drop_last());
        lemma_count_lf_append(s, t.drop_last());
    }
}

pub proof fn lemma_count_lf_bound(s: Seq<u8>)
    ensures
        count_lf(s) <= s.len(),
        s.len() > 0 && s.last() != LF ==> count_lf(s) < s.len(),
    decreases s.len(),
{
    if s.len() > 0 {
        lemma_count_lf_bound(s.drop_last());
    }
}

/// Rows add up over a split at a line start.
pub proof fn lemma_rows_append(s: Seq<u8>, t: Seq<u8>)
    requires
        s.len() == 0 || s.last() == LF || t.len() == 0,
    ensures
        rows(s + t) == rows(s) + rows(t),
{
    if t.len() == 0 {
        assert(s + t =~= s);
    } else {
        assert((s + t).last() == t.last());
        if t.last() != LF {
            assert((s + t).push(LF) =~= s + t.push(LF));
        }
        lemma_count_lf_append(s, input_of(t));
    }
}

pub proof fn lemma_next_line_start(buf: Seq<u8>, p: int)
    requires
        0 <= p <= buf.len(),
    ensures
        p < next_line_start(buf, p) <= buf.len() || (p == buf.len() && next_line_start(buf, p)
            == p),
        is_line_start(buf, next_line_start(buf, p)),
    decreases buf.len() - p,
{
    if p < buf.len() && buf[p] != LF {
        lemma_next_line_start(buf, p + 1);
    }
}

impl<'a> CsvParser<'a> {
    /// Position just past the first line feed at or after `from`, or the
    /// length of the buffer.
    fn seek_line_start(buffer: &[u8], from: usize) -> (r: usize)
        requires
            from <= buffer@.len(),
        ensures
            r == next_line_start(buffer@, from as int),
    {
        let mut p = from;
        while p < buffer.len()
            invariant
                from <= p <= buffer@.len(),
                next_line_start(buffer@, p as int) == next_line_start(buffer@, from as int),
            decreases buffer@.len() - p,
        {
            if buffer[p] == LF {
                return p + 1;
            }
            p += 1;
        }
        p
    }

    /// Shard boundaries: `0`, then for each `k` in `1..thread_number` the
    /// approximate cut `k * (len / thread_number)` (or the previous boundary,
    /// if that is further) advanced past the next line feed, then the length.
    pub fn shard_bounds(buffer: &[u8], thread_number: usize) -> (r: Vec<usize>)
        requires
            thread_number > 0,
        ensures
            r@.len() == thread_number + 1,
            r@[0] == 0,
            r@[thread_number as int] == buffer@.len(),
            forall|k: int| 0 <= k < thread_number ==> r@[k] <= #[trigger] r@[k + 1],
            forall|k: int| 0 <= k <= thread_number ==> #[trigger] r@[k] == bound(
                buffer@,
                thread_number as int,
                k,
            ),
            forall|k: int| 0 <= k <= thread_number ==> is_line_start(buffer@, (#[trigger] r@[k]) as int),
            forall|k: int|
                0 < k < thread_number ==> #[trigger] r@[k] == next_line_start(
                    buffer@,
                    if k * (buffer@.len() as int / thread_number as int) >= r@[k - 1] {
                        k * (buffer@.len() as int / thread_number as int)
                    } else {
                        r@[k - 1] as int
                    },
                ),
    {
        let len = buffer.len();
        let slots_division = len / thread_number;
        let mut r: Vec<usize> = Vec::new();
        r.push(0);
        let mut k: usize = 1;
        while k < thread_number
            invariant
                1 <= k <= thread_number,
                slots_division == len as int / thread_number as int,
                len == buffer@.len(),
                r@.len() == k,
                r@[0] == 0,
                forall|j: int| 0 <= j < k - 1 ==> r@[j] <= #[trigger] r@[j + 1],
                forall|j: int| 0 <= j < k ==> #[trigger] r@[j] <= len,
                forall|j: int| 0 <= j < k ==> #[trigger] r@[j] == bound(
                    buffer@,
                    thread_number as int,
                    j,
                ),
                forall|j: int| 0 <= j < k ==> is_line_start(buffer@, (#[trigger] r@[j]) as int),
                forall|j: int|
                    0 < j < k ==> #[trigger] r@[j] == next_line_start(
                        buffer@,
                        if j * (len as int / thread_number as int) >= r@[j - 1] {
                            j * (len as int / thread_number as int)
                        } else {
                            r@[j - 1] as int
                        },
                    ),
            decreases thread_number - k,
        {
            assert(k * slots_division <= len) by (nonlinear_arith)
                requires
                    k < thread_number,
                    slots_division == len as int / thread_number as int,
                    thread_number > 0,
            {
                assert(thread_number * slots_division <= len);
                assert(k * slots_division <= thread_number * slots_division);
            }
            let candidate = k * slots_division;
            let prev = r[k - 1];
            let from = if candidate >= prev {
                candidate
            } else {
                prev
            };
            let cut = Self::seek_line_start(buffer, from);
            proof {
                lemma_next_line_start(buffer@, from as int);
            }
            r.push(cut);
            k += 1;
        }
        r.push(len);
        proof {
            assert(r@[thread_number - 1] <= len);
        }
        r
    }

    /// Rows of `slice`: its line feeds, plus one for a last line that no line
    /// feed ends.
    pub fn count_rows(slice: &[u8]) -> (r: usize)
        ensures
            r == rows(slice@),
    {
        let n = slice.len();
        let mut count: usize = 0;
        let mut i: usize = 0;
        while i < n
            invariant
                i <= n,
                n == slice@.len(),
                count == count_lf(slice@.subrange(0, i as int)),
                count <= i,
            decreases n - i,
        {
            assert(slice@.subrange(0, i + 1).drop_last() =~= slice@.subrange(0, i as int));
            if slice[i] == LF {
                count += 1;
            }
            i += 1;
        }
        assert(slice@.subrange(0, n as int) =~= slice@);
        if n > 0 && slice[n - 1] != LF {
            proof {
                lemma_count_lf_bound(slice@);
                assert(slice@.push(LF).drop_last() =~= slice@);
            }
            count + 1
        } else {
            count
        }
    }

    /// Shard descriptors `(rows, start, end)` of `mmaped_buffer`, one per
    /// thread: the ranges are contiguous, start at 0, end at the length, and
    /// split it at line starts only. Each count is exact, the number of rows
    /// that shard holds, so the counts add up to the number of lines of the
    /// buffer itself: one more than its line feeds when its last line is not
    /// ended by one. No count carries an extra unit for the end of the
    /// buffer, so the table needs no adjustment.
    pub fn get_total_lines_in_a_file(mmaped_buffer: &[u8], thread_number: usize) -> (r: Vec<
        (usize, usize, usize),
    >)
        requires
            thread_number > 0,
        ensures
            r@.len() == thread_number,
            r@[0].1 == 0,
            r@[thread_number - 1].2 == mmaped_buffer@.len(),
            forall|k: int|
                0 <= k < thread_number ==> (#[trigger] r@[k]).1 == bound(
                    mmaped_buffer@,
                    thread_number as int,
                    k,
                ) && r@[k].2 == bound(mmaped_buffer@, thread_number as int, k + 1),
            forall|k: int| 0 <= k < thread_number ==> (#[trigger] r@[k]).1 <= r@[k].2,
            forall|k: int| 0 <= k < thread_number ==> (#[trigger] r@[k]).2 <= mmaped_buffer@.len(),
            forall|k: int| 0 <= k < thread_number - 1 ==> (#[trigger] r@[k]).2 == r@[k + 1].1,
            forall|k: int|
                0 <= k < thread_number ==> is_line_start(mmaped_buffer@, (#[trigger] r@[k]).1 as int),
            forall|k: int|
                0 <= k < thread_number ==> (#[trigger] r@[k]).0 == rows(
                    mmaped_buffer@.subrange(r@[k].1 as int, r@[k].2 as int),
                ),
            sum_rows(r@) == rows(mmaped_buffer@),
            mmaped_buffer@.len() > 0 && mmaped_buffer@.last() != LF ==> sum_rows(r@)
                == count_lf(mmaped_buffer@) + 1,
    {
        let bounds = Self::shard_bounds(mmaped_buffer, thread_number);
        let mut r: Vec<(usize, usize, usize)> = Vec::new();
        let mut k: usize = 0;
        while k < thread_number
            invariant
                k <= thread_number,
                bounds@.len() == thread_number + 1,
                bounds@[0] == 0,
                bounds@[thread_number as int] == mmaped_buffer@.len(),
                forall|j: int| 0 <= j < thread_number ==> bounds@[j] <= #[trigger] bounds@[j + 1],
                forall|j: int| 0 <= j <= thread_number ==> #[trigger] bounds@[j] == bound(
                    mmaped_buffer@,
                    thread_number as int,
                    j,
                ),
                forall|j: int|
                    0 <= j <= thread_number ==> is_line_start(mmaped_buffer@, (#[trigger] bounds@[j]) as int),
                r@.len() == k,
                forall|j: int|
                    0 <= j < k ==> (#[trigger] r@[j]).1 == bounds@[j] && r@[j].2 == bounds@[j + 1],
                forall|j: int| 0 <= j < k ==> (#[trigger] r@[j]).2 <= mmaped_buffer@.len(),
                forall|j: int|
                    0 <= j < k ==> (#[trigger] r@[j]).0 == rows(
                        mmaped_buffer@.subrange(r@[j].1 as int, r@[j].2 as int),
                    ),
                sum_rows(r@) == rows(mmaped_buffer@.subrange(0, bounds@[k as int] as int)),
            decreases thread_number - k,
        {
            let st = bounds[k];
            let ed = bounds[k + 1];
            proof {
                assert(bounds@[k as int] <= bounds@[k + 1]);
                lemma_bounds_mono(bounds@, k + 1, thread_number as int);
            }
            let c = Self::count_rows(&mmaped_buffer[st..ed]);
            let ghost pre = r@;
            r.push((c, st, ed));
            proof {
                let buf = mmaped_buffer@;
                let s = buf.subrange(0, st as int);
                let t = buf.subrange(st as int, ed as int);
                assert(buf.subrange(0, ed as int) =~= s + t);
                if st as int != 0 && (st as int) != buf.len() {
                    assert(s.last() == buf[st - 1]);
                }
                if st as int == buf.len() {
                    assert(t.len() == 0);
                }
                lemma_rows_append(s, t);
                assert(r@.drop_last() == pre);
            }
            k += 1;
        }
        proof {
            assert(mmaped_buffer@.subrange(0, mmaped_buffer@.len() as int) =~= mmaped_buffer@);
            let b = mmaped_buffer@;
            if b.len() > 0 && b.last() != LF {
                assert(b.push(LF).drop_last() =~= b);
            }
        }
        r
    }
}

/// Boundaries that never decrease step by step never decrease at all.
proof fn lemma_bounds_mono(b: Seq<usize>, i: int, j: int)
    requires
        0 <= i <= j < b.len(),
        forall|k: int| 0 <= k < b.len() - 1 ==> b[k] <= #[trigger] b[k + 1],
    ensures
        b[i] <= b[j],
    decreases j - i,
{
    if i < j {
        lemma_bounds_mono(b, i, j - 1);
        let m = j - 1;
        assert(b[m] <= b[m + 1]);
    }
}

} // verus!
