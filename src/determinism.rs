//! The table does not depend on how many shards the data rows are cut into,
//! as long as every row is well formed.
use vstd::prelude::*;
use crate::header::header_of;
use crate::parse_state::{ParseState, next_state};
use crate::table::data_of;
use crate::cell::{CellType, CellView, merge};
use crate::partition::{
    bound, count_lf, is_line_start, lemma_next_line_start, lemma_rows_append, next_line_start, rows,
};
use crate::scan::{col_merge, field_cell, field_ok, field_types, Field,
    ScanCtx, ctx_init, emitted, field_at, input_of, is_boundary, scan_ctx, scan_fields, step,
    tokens, LF,
};

verus! {

/// States that act as the start state on every byte.
pub open spec fn resets(s: ParseState) -> bool {
    s == ParseState::Start || is_boundary(s)
}

/// A context with no pending cell, in a state that acts as the start state.
pub open spec fn is_clean(c: ScanCtx) -> bool {
    &&& resets(c.state)
    &&& c.start is None
    &&& c.end is None
    &&& c.save is None
}

/// The positions a context holds lie within the first `n` bytes, and a saved
/// state goes with a marked end.
pub open spec fn ctx_bounded(c: ScanCtx, n: int) -> bool {
    &&& (c.start matches Some(p) ==> 0 <= p <= n)
    &&& (c.end matches Some(e) ==> 0 <= e < n)
    &&& (c.save is Some <==> c.end is Some)
}

/// `o` moved by `d`.
pub open spec fn shift_opt(o: Option<int>, d: int) -> Option<int> {
    match o {
        Some(x) => Some(x + d),
        None => None,
    }
}

/// Context `c1`, at offset `d` in a longer buffer, behaves as `c2`.
pub open spec fn equiv(c1: ScanCtx, c2: ScanCtx, d: int) -> bool {
    &&& (c1.state == c2.state || (is_clean(c1) && is_clean(c2)))
    &&& c1.start == shift_opt(c2.start, d)
    &&& c1.end == shift_opt(c2.end, d)
    &&& (c1.save == c2.save || (c2.end matches Some(e) && (c2.start matches Some(p) ==> p > e)))
}

proof fn lemma_resets_act_alike(s: ParseState, b: u8)
    requires
        resets(s),
    ensures
        next_state(s, b) == next_state(ParseState::Start, b),
{
}

proof fn lemma_step_bounded(buf: Seq<u8>, c: ScanCtx, i: int)
    requires
        0 <= i < buf.len(),
        ctx_bounded(c, i),
    ensures
        ctx_bounded(step(buf, c, i), i + 1),
{
}

proof fn lemma_scan_bounded(buf: Seq<u8>, s0: ParseState, n: nat)
    requires
        n <= buf.len(),
    ensures
        ctx_bounded(scan_ctx(buf, s0, n), n as int),
    decreases n,
{
    if n > 0 {
        lemma_scan_bounded(buf, s0, (n - 1) as nat);
        lemma_step_bounded(buf, scan_ctx(buf, s0, (n - 1) as nat), n - 1);
    }
}

/// A scan reads only the bytes it has passed.
proof fn lemma_scan_same_prefix(b1: Seq<u8>, b2: Seq<u8>, s0: ParseState, n: nat)
    requires
        n <= b1.len(),
        n <= b2.len(),
        b1.subrange(0, n as int) == b2.subrange(0, n as int),
    ensures
        scan_ctx(b1, s0, n) == scan_ctx(b2, s0, n),
        scan_fields(b1, s0, n) == scan_fields(b2, s0, n),
    decreases n,
{
    if n > 0 {
        let m = (n - 1) as nat;
        assert(b1.subrange(0, m as int) =~= b1.subrange(0, n as int).subrange(0, m as int));
        assert(b2.subrange(0, m as int) =~= b2.subrange(0, n as int).subrange(0, m as int));
        lemma_scan_same_prefix(b1, b2, s0, m);
        lemma_scan_bounded(b1, s0, m);
        let c = scan_ctx(b1, s0, m);
        assert(b1[m as int] == b1.subrange(0, n as int)[m as int]);
        assert(b2[m as int] == b2.subrange(0, n as int)[m as int]);
        match (c.start, c.end) {
            (Some(p), Some(e)) => {
                if p < e {
                    assert(b1.subrange(p, e) =~= b1.subrange(0, n as int).subrange(p, e));
                    assert(b2.subrange(p, e) =~= b2.subrange(0, n as int).subrange(p, e));
                }
            },
            (Some(p), None) => {
                if p < m {
                    assert(b1.subrange(p, m as int) =~= b1.subrange(0, n as int).subrange(p, m as int));
                    assert(b2.subrange(p, m as int) =~= b2.subrange(0, n as int).subrange(p, m as int));
                }
            },
            _ => {},
        }
        assert(emitted(b1, c, m as int) == emitted(b2, c, m as int));
    }
}

/// One byte read at offset `d + i` of `big` acts as the same byte read at
/// `i` of `small`.
proof fn lemma_step_shift(big: Seq<u8>, small: Seq<u8>, c1: ScanCtx, c2: ScanCtx, d: int, i: int)
    requires
        0 <= d,
        0 <= i < small.len(),
        d + small.len() <= big.len(),
        big.subrange(d, d + small.len()) == small,
        equiv(c1, c2, d),
        ctx_bounded(c2, i),
    ensures
        equiv(step(big, c1, d + i), step(small, c2, i), d),
        emitted(big, c1, d + i) == emitted(small, c2, i),
{
    assert(big[d + i] == small[i]);
    let b = small[i];
    if c1.state != c2.state {
        lemma_resets_act_alike(c1.state, b);
        lemma_resets_act_alike(c2.state, b);
    }
    let s = next_state(c2.state, b);
    assert(next_state(c1.state, b) == s);
    if is_boundary(s) {
        let f1 = field_at(big, c1, d + i, s);
        let f2 = field_at(small, c2, i, s);
        match (c2.start, c2.end) {
            (Some(p), Some(e)) => {
                if p < e {
                    assert(big.subrange(p + d, e + d) =~= small.subrange(p, e));
                }
            },
            (Some(p), None) => {
                if p < i {
                    assert(big.subrange(p + d, i + d) =~= small.subrange(p, i));
                }
            },
            _ => {},
        }
        assert(f1 == f2);
    }
}

/// Reading `small` where it stands at offset `d` of `big`, from a clean
/// context, acts as reading it alone from the start state.
proof fn lemma_scan_shift(big: Seq<u8>, small: Seq<u8>, s0: ParseState, d: nat, n: nat)
    requires
        d + small.len() <= big.len(),
        big.subrange(d as int, d + small.len() as int) == small,
        is_clean(scan_ctx(big, s0, d)),
        n <= small.len(),
    ensures
        equiv(scan_ctx(big, s0, d + n), scan_ctx(small, ParseState::Start, n), d as int),
        scan_fields(big, s0, d + n) == scan_fields(big, s0, d) + scan_fields(
            small,
            ParseState::Start,
            n,
        ),
    decreases n,
{
    if n == 0 {
        assert(scan_fields(big, s0, d) + scan_fields(small, ParseState::Start, 0) =~= scan_fields(
            big,
            s0,
            d,
        ));
    } else {
        let m = (n - 1) as nat;
        lemma_scan_shift(big, small, s0, d, m);
        lemma_scan_bounded(small, ParseState::Start, m);
        let c1 = scan_ctx(big, s0, d + m);
        let c2 = scan_ctx(small, ParseState::Start, m);
        lemma_step_shift(big, small, c1, c2, d as int, m as int);
        assert((d + n - 1) as nat == d + m);
        match emitted(small, c2, m as int) {
            Some(f) => {
                assert(scan_fields(big, s0, d) + scan_fields(small, ParseState::Start, n)
                    =~= (scan_fields(big, s0, d) + scan_fields(small, ParseState::Start, m)).push(
                    f,
                ));
            },
            None => {},
        }
    }
}

/// The text ends with a line feed read outside quotes.
pub open spec fn closes(a: Seq<u8>) -> bool {
    is_clean(scan_ctx(a, ParseState::Start, a.len()))
}

/// The fields of text that closes, followed by more text, are those of
/// each part.
pub proof fn lemma_tokens_append(a: Seq<u8>, b: Seq<u8>)
    requires
        a.len() > 0,
        a.last() == LF,
        closes(a),
    ensures
        tokens(a + b) == tokens(a) + tokens(b),
        closes(b) ==> closes(a + b),
{
    assert(input_of(a) == a);
    if b.len() == 0 {
        assert(a + b =~= a);
        assert(tokens(a) + tokens(b) =~= tokens(a));
        assert(scan_ctx(b, ParseState::Start, 0) == ctx_init(ParseState::Start));
    } else {
        let ib = input_of(b);
        let big = a + ib;
        assert(input_of(a + b) =~= big) by {
            assert((a + b).last() == b.last());
            if b.last() != LF {
                assert((a + b).push(LF) =~= a + b.push(LF));
            }
        }
        assert(big.subrange(0, a.len() as int) =~= a);
        assert(big.subrange(a.len() as int, a.len() + ib.len() as int) =~= ib);
        assert(a.subrange(0, a.len() as int) =~= a);
        lemma_scan_same_prefix(big, a, ParseState::Start, a.len());
        lemma_scan_shift(big, ib, ParseState::Start, a.len(), ib.len());
    }
    if closes(b) && b.len() > 0 {
        let big = a + b;
        assert(big.subrange(0, a.len() as int) =~= a);
        assert(big.subrange(a.len() as int, a.len() + b.len() as int) =~= b);
        assert(a.subrange(0, a.len() as int) =~= a);
        lemma_scan_same_prefix(big, a, ParseState::Start, a.len());
        lemma_scan_shift(big, b, ParseState::Start, a.len(), b.len());
    }
}

/// The line that starts at `p`: up to just past its line feed, or to the
/// end.
pub open spec fn line_at(data: Seq<u8>, p: int) -> Seq<u8> {
    data.subrange(p, next_line_start(data, p))
}

/// Every row of `data` yields exactly `cols` fields, and none ends inside
/// quotes.
pub open spec fn rows_well_formed(data: Seq<u8>, cols: int) -> bool {
    forall|p: int|
        0 <= p < data.len() && is_line_start(data, p) ==> {
            &&& tokens(#[trigger] line_at(data, p)).len() == cols
            &&& (line_at(data, p).last() == LF ==> closes(line_at(data, p)))
        }
}

proof fn lemma_line_shape(data: Seq<u8>, p: int)
    requires
        0 <= p < data.len(),
    ensures
        p < next_line_start(data, p) <= data.len(),
        forall|j: int| p <= j < next_line_start(data, p) - 1 ==> data[j] != LF,
        next_line_start(data, p) < data.len() ==> data[next_line_start(data, p) - 1] == LF,
        next_line_start(data, p) == data.len() || data[next_line_start(data, p) - 1] == LF,
    decreases data.len() - p,
{
    if data[p] != LF {
        if p + 1 < data.len() {
            lemma_line_shape(data, p + 1);
        } else {
            assert(next_line_start(data, p + 1) == data.len());
        }
        assert(next_line_start(data, p) == next_line_start(data, p + 1));
    }
}

proof fn lemma_count_lf_none(s: Seq<u8>)
    requires
        forall|j: int| 0 <= j < s.len() ==> s[j] != LF,
    ensures
        count_lf(s) == 0,
    decreases s.len(),
{
    if s.len() > 0 {
        lemma_count_lf_none(s.drop_last());
    }
}

/// A line is one row.
proof fn lemma_line_rows(data: Seq<u8>, p: int)
    requires
        0 <= p < data.len(),
    ensures
        rows(line_at(data, p)) == 1,
        line_at(data, p).len() > 0,
{
    lemma_line_shape(data, p);
    let l = line_at(data, p);
    let body = l.drop_last();
    assert forall|j: int| 0 <= j < body.len() implies body[j] != LF by {
        assert(body[j] == data[p + j]);
    }
    lemma_count_lf_none(body);
    if l.last() == LF {
        assert(input_of(l) == l);
        assert(l.drop_last() == body);
    } else {
        assert(input_of(l).drop_last() =~= l);
        lemma_count_lf_none(l);
    }
}

/// The line at a line start before `q`, itself a line start, ends by `q`.
proof fn lemma_line_within(data: Seq<u8>, p: int, q: int)
    requires
        0 <= p < q <= data.len(),
        is_line_start(data, q),
    ensures
        next_line_start(data, p) <= q,
        is_line_start(data, next_line_start(data, p)),
{
    lemma_line_shape(data, p);
    lemma_next_line_start(data, p);
    if next_line_start(data, p) > q {
        assert(q < data.len());
        assert(data[q - 1] == LF);
        assert(p <= q - 1 < next_line_start(data, p) - 1);
    }
}

/// Text between two line starts of well-formed rows has `cols` fields per
/// row, and closes when it ends with a line feed.
proof fn lemma_segment(data: Seq<u8>, cols: int, p: int, q: int)
    requires
        rows_well_formed(data, cols),
        0 <= p <= q <= data.len(),
        is_line_start(data, p),
        is_line_start(data, q),
    ensures
        tokens(data.subrange(p, q)).len() == rows(data.subrange(p, q)) * cols,
        data.subrange(p, q).len() > 0 && data.subrange(p, q).last() == LF ==> closes(
            data.subrange(p, q),
        ),
    decreases q - p,
{
    let seg = data.subrange(p, q);
    if p == q {
        assert(seg.len() == 0);
        assert(input_of(seg) == seg);
        assert(tokens(seg).len() == 0);
        assert(rows(seg) == 0);
        assert(rows(seg) * cols == 0);
    } else {
        let m = next_line_start(data, p);
        lemma_line_within(data, p, q);
        lemma_line_rows(data, p);
        lemma_line_shape(data, p);
        let l = line_at(data, p);
        let rest = data.subrange(m, q);
        assert(seg =~= l + rest);
        assert(tokens(l).len() == cols);
        if m == q {
            assert(rest.len() == 0);
            assert(seg =~= l);
            assert(rows(l) * cols == cols);
            assert(tokens(seg).len() == rows(seg) * cols);
        } else {
            assert(l.last() == data[m - 1]);
            assert(l.last() == LF);
            lemma_segment(data, cols, m, q);
            lemma_tokens_append(l, rest);
            lemma_rows_append(l, rest);
            assert((1 + rows(rest)) * cols == cols + rows(rest) * cols) by (nonlinear_arith);
            assert(closes(l));
            assert(tokens(seg) == tokens(l) + tokens(rest));
            assert(rows(seg) == 1 + rows(rest));
            assert(tokens(seg).len() == rows(seg) * cols);
            if rest.last() == LF {
                assert(seg.last() == rest.last());
            }
            assert(seg.last() == rest.last());
        }
    }
}

/// Fields of text between line starts split at any line start between.
proof fn lemma_segment_split(data: Seq<u8>, cols: int, p: int, r: int, q: int)
    requires
        rows_well_formed(data, cols),
        0 <= p <= r <= q <= data.len(),
        is_line_start(data, p),
        is_line_start(data, r),
        is_line_start(data, q),
    ensures
        tokens(data.subrange(p, q)) == tokens(data.subrange(p, r)) + tokens(data.subrange(r, q)),
{
    let a = data.subrange(p, r);
    let b = data.subrange(r, q);
    assert(data.subrange(p, q) =~= a + b);
    if p == r {
        assert(a.len() == 0);
        assert(a + b =~= b);
        assert(input_of(a) == a);
        assert(tokens(a) + tokens(b) =~= tokens(b));
    } else if r == q {
        assert(b.len() == 0);
        assert(a + b =~= a);
        assert(input_of(b) == b);
        assert(tokens(a) + tokens(b) =~= tokens(a));
    } else {
        assert(a.last() == data[r - 1]);
        lemma_segment(data, cols, p, r);
        lemma_tokens_append(a, b);
    }
}

/// Column merge over two runs, the first of whole rows, is the merge of the
/// column merges of each.
proof fn lemma_col_merge_append(t1: Seq<CellType>, t2: Seq<CellType>, cols: int, c: int)
    requires
        cols > 0,
        t1.len() as int % cols == 0,
    ensures
        col_merge(t1 + t2, cols, c) == merge(col_merge(t1, cols, c), col_merge(t2, cols, c)),
    decreases t2.len(),
{
    if t2.len() == 0 {
        assert(t1 + t2 =~= t1);
        crate::cell::lemma_merge_laws(col_merge(t1, cols, c), CellType::Null, CellType::Null);
    } else {
        assert((t1 + t2).drop_last() =~= t1 + t2.drop_last());
        lemma_col_merge_append(t1, t2.drop_last(), cols, c);
        vstd::arithmetic::div_mod::lemma_fundamental_div_mod(t1.len() as int, cols);
        vstd::arithmetic::div_mod::lemma_mod_multiples_vanish(
            t1.len() as int / cols,
            t2.len() - 1,
            cols,
        );
        assert((t1 + t2).len() - 1 == cols * (t1.len() as int / cols) + (t2.len() - 1));
        let x = if (t2.len() - 1) % cols == c {
            t2.last()
        } else {
            CellType::Null
        };
        crate::cell::lemma_merge_laws(
            col_merge(t1, cols, c),
            col_merge(t2.drop_last(), cols, c),
            x,
        );
    }
}

/// Cells of a run of fields.
pub open spec fn cells_of(fs: Seq<Field>) -> Seq<CellView> {
    Seq::new(fs.len(), |j: int| field_cell(fs[j]))
}

/// Every field of a run converts.
pub open spec fn all_ok(fs: Seq<Field>) -> bool {
    forall|j: int| 0 <= j < fs.len() ==> field_ok(#[trigger] fs[j])
}

proof fn lemma_bound_props(data: Seq<u8>, n: int, k: int)
    requires
        n >= 1,
        0 <= k,
    ensures
        0 <= bound(data, n, k) <= data.len(),
        is_line_start(data, bound(data, n, k)),
        bound(data, n, k) <= bound(data, n, k + 1),
    decreases k,
{
    let len = data.len() as int;
    assert(len / n <= len) by {
        vstd::arithmetic::div_mod::lemma_div_is_ordered_by_denominator(len, 1, n);
    }
    if k > 0 {
        lemma_bound_props(data, n, k - 1);
    }
    if 0 < k < n {
        let c = k * (len / n);
        assert(0 <= c <= len) by (nonlinear_arith)
            requires 0 < k < n, len >= 0, c == k * (len / n), n >= 1,
        {
            vstd::arithmetic::div_mod::lemma_fundamental_div_mod(len, n);
            assert(n * (len / n) <= len);
            assert(k * (len / n) <= n * (len / n));
        }
        let prev = bound(data, n, k - 1);
        lemma_next_line_start(data, if c >= prev { c } else { prev });
    }
    if 0 <= k + 1 < n && k + 1 > 0 {
        let c = (k + 1) * (len / n);
        assert(0 <= c <= len) by (nonlinear_arith)
            requires 0 < k + 1 < n, len >= 0, c == (k + 1) * (len / n), n >= 1,
        {
            vstd::arithmetic::div_mod::lemma_fundamental_div_mod(len, n);
            assert(n * (len / n) <= len);
            assert((k + 1) * (len / n) <= n * (len / n));
        }
        let prev = bound(data, n, k);
        lemma_next_line_start(data, if c >= prev { c } else { prev });
    }
}

/// The first `k` shards hold the cells of the data up to boundary `k`, with
/// its column types, and convert exactly when those fields do.
proof fn lemma_table_prefix(data: Seq<u8>, cols: int, n: int, k: int)
    requires
        rows_well_formed(data, cols),
        n >= 1,
        cols >= 1,
        0 <= k <= n,
    ensures
        ({
            let fs = tokens(data.subrange(0, bound(data, n, k)));
            &&& crate::table::table_cells(data, n, cols, k) == cells_of(fs)
            &&& crate::table::table_types(data, n, cols, k) == Seq::new(
                cols as nat,
                |c: int| col_merge(field_types(fs), cols, c),
            )
            &&& ((forall|j: int| 0 <= j < k ==> crate::table::shard_ok(data, n, j)) <==> all_ok(fs))
        }),
    decreases k,
{
    let b = bound(data, n, k);
    lemma_bound_props(data, n, k);
    if k == 0 {
        let fs = tokens(data.subrange(0, 0));
        assert(data.subrange(0, 0).len() == 0);
        assert(input_of(data.subrange(0, 0)) == data.subrange(0, 0));
        assert(fs.len() == 0);
        assert(cells_of(fs) =~= Seq::<CellView>::empty());
        assert(field_types(fs) =~= Seq::<CellType>::empty());
        assert(crate::table::table_types(data, n, cols, 0) =~= Seq::new(
            cols as nat,
            |c: int| col_merge(field_types(fs), cols, c),
        ));
    } else {
        lemma_table_prefix(data, cols, n, k - 1);
        lemma_bound_props(data, n, k - 1);
        let a = bound(data, n, k - 1);
        let pre = data.subrange(0, a);
        let sh = crate::table::shard_of(data, n, k - 1);
        let whole = data.subrange(0, b);
        lemma_segment_split(data, cols, 0, a, b);
        lemma_segment(data, cols, a, b);
        lemma_segment(data, cols, 0, a);
        let fp = tokens(pre);
        let fsh = tokens(sh);
        let fw = tokens(whole);
        assert(fw == fp + fsh);
        let cap = rows(sh) * cols;
        assert(fsh.len() == cap);
        assert(crate::table::shard_cells(data, n, k - 1, cols) =~= cells_of(fsh));
        assert(cells_of(fw) =~= cells_of(fp) + cells_of(fsh));
        assert(field_types(fw) =~= field_types(fp) + field_types(fsh));
        assert(field_types(fsh).take(fsh.len() as int) =~= field_types(fsh));
        assert(fp.len() == rows(pre) * cols);
        assert(field_types(fp).len() as int % cols == 0) by {
            vstd::arithmetic::div_mod::lemma_mod_multiples_basic(rows(pre) as int, cols);
        }
        assert forall|c: int| 0 <= c < cols implies #[trigger] crate::table::table_types(
            data,
            n,
            cols,
            k,
        )[c] == col_merge(field_types(fw), cols, c) by {
            lemma_col_merge_append(field_types(fp), field_types(fsh), cols, c);
        }
        assert(crate::table::table_types(data, n, cols, k) =~= Seq::new(
            cols as nat,
            |c: int| col_merge(field_types(fw), cols, c),
        ));
        assert(all_ok(fw) <==> (all_ok(fp) && all_ok(fsh))) by {
            if all_ok(fp) && all_ok(fsh) {
                assert forall|j: int| 0 <= j < fw.len() implies field_ok(#[trigger] fw[j]) by {
                    if j < fp.len() {
                        assert(fw[j] == fp[j]);
                    } else {
                        assert(fw[j] == fsh[j - fp.len()]);
                    }
                }
            }
            if all_ok(fw) {
                assert forall|j: int| 0 <= j < fp.len() implies field_ok(#[trigger] fp[j]) by {
                    assert(fw[j] == fp[j]);
                }
                assert forall|j: int| 0 <= j < fsh.len() implies field_ok(#[trigger] fsh[j]) by {
                    assert(fw[j + fp.len()] == fsh[j]);
                }
            }
        }
        assert(crate::table::shard_ok(data, n, k - 1) == all_ok(fsh));
    }
}

/// Cutting well-formed data rows into any number of shards gives the same
/// table, the same column types, and the same success as one shard.
pub proof fn lemma_shard_count_invariance(data: Seq<u8>, cols: int, n: int)
    requires
        rows_well_formed(data, cols),
        cols >= 1,
        n >= 1,
    ensures
        crate::table::table_cells(data, n, cols, n) == crate::table::table_cells(data, 1, cols, 1),
        crate::table::table_types(data, n, cols, n) == crate::table::table_types(data, 1, cols, 1),
        (forall|k: int| 0 <= k < n ==> crate::table::shard_ok(data, n, k))
            <==> crate::table::shard_ok(data, 1, 0),
{
    lemma_table_prefix(data, cols, n, n);
    lemma_table_prefix(data, cols, 1, 1);
    assert(data.subrange(0, data.len() as int) =~= data);
    assert(bound(data, n, n) == data.len());
    assert(bound(data, 1, 1) == data.len());
    if crate::table::shard_ok(data, 1, 0) {
        assert(forall|j: int| 0 <= j < 1 ==> crate::table::shard_ok(data, 1, j));
    }
}

/// Parsing a buffer whose data rows are well formed for its header gives
/// the same cells, column types and success for every shard count.
pub proof fn lemma_parse_independent_of_shards(bytes: Seq<u8>, n: int)
    requires
        n >= 1,
        header_of(bytes).0.len() > 0,
        rows_well_formed(data_of(bytes), header_of(bytes).0.len() as int),
    ensures
        ({
            let data = data_of(bytes);
            let cols = header_of(bytes).0.len() as int;
            &&& crate::table::table_cells(data, n, cols, n) == crate::table::table_cells(
                data,
                1,
                cols,
                1,
            )
            &&& crate::table::table_types(data, n, cols, n) == crate::table::table_types(
                data,
                1,
                cols,
                1,
            )
            &&& (forall|k: int| 0 <= k < n ==> crate::table::shard_ok(data, n, k))
                <==> crate::table::shard_ok(data, 1, 0)
        }),
{
    lemma_shard_count_invariance(data_of(bytes), header_of(bytes).0.len() as int, n);
}

/// Some position of column `c` (of rows of `cols`) in `ts` holds `t`.
pub open spec fn column_has(ts: Seq<CellType>, cols: int, c: int, t: CellType) -> bool {
    exists|j: int| 0 <= j < ts.len() && j % cols == c && #[trigger] ts[j] == t
}

proof fn lemma_column_has_push(ts: Seq<CellType>, cols: int, c: int, t: CellType)
    requires
        ts.len() > 0,
    ensures
        column_has(ts, cols, c, t) <==> (column_has(ts.drop_last(), cols, c, t) || ((ts.len()
            - 1) % cols == c && ts.last() == t)),
{
    let p = ts.drop_last();
    if column_has(ts, cols, c, t) {
        let j = choose|j: int| 0 <= j < ts.len() && j % cols == c && #[trigger] ts[j] == t;
        if j < ts.len() - 1 {
            assert(p[j] == t);
        }
    }
    if column_has(p, cols, c, t) {
        let j = choose|j: int| 0 <= j < p.len() && j % cols == c && #[trigger] p[j] == t;
        assert(ts[j] == t);
    }
    if (ts.len() - 1) % cols == c && ts.last() == t {
        assert(ts[ts.len() - 1] == t);
    }
}

/// The merged type of a column: `String` if any of its positions holds
/// `String`, else `F64` if any holds `F64`, else `I64` if any holds `I64`,
/// else `Null`.
pub proof fn lemma_column_merge_inference(ts: Seq<CellType>, cols: int, c: int)
    requires
        cols > 0,
    ensures
        (col_merge(ts, cols, c) == CellType::String) <==> column_has(ts, cols, c, CellType::String),
        (col_merge(ts, cols, c) == CellType::F64) <==> (column_has(ts, cols, c, CellType::F64)
            && !column_has(ts, cols, c, CellType::String)),
        (col_merge(ts, cols, c) == CellType::I64) <==> (column_has(ts, cols, c, CellType::I64)
            && !column_has(ts, cols, c, CellType::String) && !column_has(
            ts,
            cols,
            c,
            CellType::F64,
        )),
        (col_merge(ts, cols, c) == CellType::Null) <==> (!column_has(ts, cols, c, CellType::String)
            && !column_has(ts, cols, c, CellType::F64) && !column_has(
            ts,
            cols,
            c,
            CellType::I64,
        )),
    decreases ts.len(),
{
    if ts.len() > 0 {
        lemma_column_merge_inference(ts.drop_last(), cols, c);
        lemma_column_has_push(ts, cols, c, CellType::String);
        lemma_column_has_push(ts, cols, c, CellType::F64);
        lemma_column_has_push(ts, cols, c, CellType::I64);
    }
}

/// Type of a cell.
pub open spec fn view_type(v: CellView) -> CellType {
    match v {
        CellView::Null => CellType::Null,
        CellView::Int(_) => CellType::I64,
        CellView::Dec(_) => CellType::F64,
        CellView::Text(_) => CellType::String,
    }
}

/// Types of a run of cells.
pub open spec fn cell_types(cells: Seq<CellView>) -> Seq<CellType> {
    cells.map_values(|v: CellView| view_type(v))
}

/// For well-formed data rows and any shard count, each column's type is
/// inferred from its cells: an all-integer column is `I64`, one decimal
/// anywhere (and no text) makes it `F64`, one text anywhere makes it
/// `String`, and an all-empty column is `Null`.
pub proof fn lemma_table_column_types(data: Seq<u8>, cols: int, n: int, c: int)
    requires
        rows_well_formed(data, cols),
        cols >= 1,
        n >= 1,
        0 <= c < cols,
    ensures
        ({
            let t = crate::table::table_types(data, n, cols, n)[c];
            let ts = cell_types(crate::table::table_cells(data, n, cols, n));
            &&& (t == CellType::String) <==> column_has(ts, cols, c, CellType::String)
            &&& (t == CellType::F64) <==> (column_has(ts, cols, c, CellType::F64) && !column_has(
                ts,
                cols,
                c,
                CellType::String,
            ))
            &&& (t == CellType::I64) <==> (column_has(ts, cols, c, CellType::I64) && !column_has(
                ts,
                cols,
                c,
                CellType::String,
            ) && !column_has(ts, cols, c, CellType::F64))
            &&& (t == CellType::Null) <==> (!column_has(ts, cols, c, CellType::String)
                && !column_has(ts, cols, c, CellType::F64) && !column_has(
                ts,
                cols,
                c,
                CellType::I64,
            ))
        }),
{
    lemma_table_prefix(data, cols, n, n);
    assert(data.subrange(0, data.len() as int) =~= data);
    assert(bound(data, n, n) == data.len());
    let fs = tokens(data);
    assert(cell_types(cells_of(fs)) =~= field_types(fs));
    lemma_column_merge_inference(field_types(fs), cols, c);
}

} // verus!
