//! Mathematical model of tokenizing one buffer: the boundary states of the
//! state machine cut the bytes into fields, and each field converts to a
//! cell by the state that closed it.
use vstd::prelude::*;
use vstd::utf8::valid_utf8;
use vstd::utf8::decode_utf8;
use crate::cell::{Cell, CellType, CellView};
use crate::parse_state::{ParseState, next_state};

verus! {

/// Line feed
pub const LF: u8 = 0x0a;

/// Text of `b` decoded as UTF-8, with each invalid sequence replaced.
pub uninterp spec fn lossy_text(b: Seq<u8>) -> Seq<char>;

/// Relies on `String::from_utf8_lossy`: the text depends on the bytes alone,
/// and bytes that are valid UTF-8 decode to exactly their characters.
#[verifier::external_body]
pub(crate) fn text_of(b: &[u8]) -> (r: String)
    ensures
        r@ == lossy_text(b@),
        valid_utf8(b@) ==> r@ == decode_utf8(b@),
{
    String::from_utf8_lossy(b).into_owned()
}

/// ASCII whitespace: space, tab, line feed, form feed, carriage return.
pub open spec fn is_blank(b: u8) -> bool {
    b == 0x20 || b == 0x09 || b == 0x0a || b == 0x0c || b == 0x0d
}

/// `s` without its leading ASCII whitespace.
pub open spec fn trim_start(s: Seq<u8>) -> Seq<u8>
    decreases s.len(),
{
    if s.len() > 0 && is_blank(s[0]) {
        trim_start(s.drop_first())
    } else {
        s
    }
}

/// `s` without its trailing ASCII whitespace.
pub open spec fn trim_end(s: Seq<u8>) -> Seq<u8>
    decreases s.len(),
{
    if s.len() > 0 && is_blank(s.last()) {
        trim_end(s.drop_last())
    } else {
        s
    }
}

proof fn lemma_trim_start_len(s: Seq<u8>)
    ensures
        trim_start(s).len() <= s.len(),
    decreases s.len(),
{
    if s.len() > 0 {
        lemma_trim_start_len(s.drop_first());
    }
}

proof fn lemma_trim_end_len(s: Seq<u8>)
    ensures
        trim_end(s).len() <= s.len(),
    decreases s.len(),
{
    if s.len() > 0 {
        lemma_trim_end_len(s.drop_last());
    }
}

pub proof fn lemma_trim_len(s: Seq<u8>)
    ensures
        trim(s).len() <= s.len(),
{
    lemma_trim_start_len(s);
    lemma_trim_end_len(trim_start(s));
}

/// `s` without leading and trailing ASCII whitespace.
pub open spec fn trim(s: Seq<u8>) -> Seq<u8> {
    trim_end(trim_start(s))
}

/// Every byte is a decimal digit.
pub open spec fn all_digits(s: Seq<u8>) -> bool {
    forall|i: int| 0 <= i < s.len() ==> 0x30 <= #[trigger] s[i] <= 0x39
}

/// The number that the decimal digits `s` write.
pub open spec fn digits_value(s: Seq<u8>) -> int
    decreases s.len(),
{
    if s.len() == 0 {
        0
    } else {
        digits_value(s.drop_last()) * 10 + (s.last() - 0x30)
    }
}

/// `s` without a leading sign.
pub open spec fn magnitude(s: Seq<u8>) -> Seq<u8> {
    if s.len() > 0 && (s[0] == 0x2d || s[0] == 0x2b) {
        s.drop_first()
    } else {
        s
    }
}

/// The integer that `s` writes: an optional sign, then decimal digits.
pub open spec fn int_value(s: Seq<u8>) -> int {
    if s.len() > 0 && s[0] == 0x2d {
        -digits_value(s.drop_first())
    } else {
        digits_value(magnitude(s))
    }
}

/// `s` is an optional sign and a non-empty run of digits whose value fits
/// in `i64`.
pub open spec fn is_int_text(s: Seq<u8>) -> bool {
    &&& magnitude(s).len() > 0
    &&& all_digits(magnitude(s))
    &&& i64::MIN <= int_value(s) <= i64::MAX
}

/// Decimal digit.
pub open spec fn is_digit(b: u8) -> bool {
    0x30 <= b <= 0x39
}

/// `s` is decimal text: digits and at most one point, with at least one
/// digit.
pub open spec fn is_decimal_text(s: Seq<u8>) -> bool {
    &&& forall|i: int| 0 <= i < s.len() ==> is_digit(#[trigger] s[i]) || s[i] == 0x2e
    &&& forall|i: int, j: int| 0 <= i < j < s.len() && #[trigger] s[i] == 0x2e ==> #[trigger] s[j] != 0x2e
    &&& exists|i: int| 0 <= i < s.len() && is_digit(#[trigger] s[i])
}

/// States in which the tokenizer is inside a cell and has just seen its
/// first byte.
pub open spec fn opens_cell(s: ParseState) -> bool {
    s == ParseState::Start || s == ParseState::CellString || s
        == ParseState::CellDecimalStartWithPointRead || s == ParseState::CellNumberStart
}

/// Boundary states: a cell has ended and is materialized.
pub open spec fn is_boundary(s: ParseState) -> bool {
    s == ParseState::CellNumberEnd || s == ParseState::CellDecimalEnd || s
        == ParseState::CellDecimalEndWithPointRead || s == ParseState::CellSep || s
        == ParseState::NewLine
}

/// States reached on a closing quote.
pub open spec fn closes_quote(s: ParseState) -> bool {
    s == ParseState::CellQuoteEnd || s == ParseState::CellQuoteNumberEnd || s
        == ParseState::CellQuoteDecimalEnd || s == ParseState::CellQuoteDecimalEndWithPointRead
}

/// Closing states whose text converts to an integer.
pub open spec fn int_kind(s: ParseState) -> bool {
    s == ParseState::CellNumberStart || s == ParseState::CellNumberCurrent || s
        == ParseState::CellNumberEnd || s == ParseState::CellQuoteNumberEnd
}

/// Closing states whose text converts to a decimal.
pub open spec fn dec_kind(s: ParseState) -> bool {
    s == ParseState::CellDecimalEnd || s == ParseState::CellDecimalEndWithPointRead || s
        == ParseState::CellQuoteDecimalEnd || s == ParseState::CellQuoteDecimalEndWithPointRead
}

/// One field cut from the buffer: empty, or trimmed bytes with the state
/// that decides their conversion.
pub enum Field {
    Empty,
    Text(Seq<u8>, ParseState),
}

/// Tokenizer context: the state, where the pending cell's text starts and
/// ends, and the state saved when its end was marked.
pub struct ScanCtx {
    pub state: ParseState,
    pub start: Option<int>,
    pub end: Option<int>,
    pub save: Option<ParseState>,
}

/// Context before any byte, in state `s0`.
pub open spec fn ctx_init(s0: ParseState) -> ScanCtx {
    ScanCtx { state: s0, start: None, end: None, save: None }
}

/// The field materialized when state `s` is reached at position `i`.
pub open spec fn field_at(buf: Seq<u8>, ctx: ScanCtx, i: int, s: ParseState) -> Field {
    if ctx.start is None && ctx.end is None {
        Field::Empty
    } else {
        let ep = match ctx.end {
            Some(e) => e,
            None => i,
        };
        let sp = match ctx.start {
            Some(p) => p,
            None => i,
        };
        let kind = match ctx.save {
            Some(k) => k,
            None => s,
        };
        if sp < ep {
            Field::Text(trim(buf.subrange(sp, ep)), kind)
        } else {
            Field::Empty
        }
    }
}

/// Context after reading the byte at position `i` of `buf`.
pub open spec fn step(buf: Seq<u8>, ctx: ScanCtx, i: int) -> ScanCtx {
    let s = next_state(ctx.state, buf[i]);
    if opens_cell(s) {
        ScanCtx { state: s, start: Some(i), ..ctx }
    } else if s == ParseState::CellQuoteStart {
        ScanCtx { state: s, start: Some(i + 1), ..ctx }
    } else if is_boundary(s) {
        ctx_init(s)
    } else if closes_quote(s) {
        ScanCtx { state: s, end: Some(i), save: Some(s), ..ctx }
    } else if s == ParseState::CarriageRet && ctx.end is None {
        ScanCtx { state: s, end: Some(i), save: Some(ctx.state), ..ctx }
    } else {
        ScanCtx { state: s, ..ctx }
    }
}

/// Field emitted on reading the byte at position `i`, if any.
pub open spec fn emitted(buf: Seq<u8>, ctx: ScanCtx, i: int) -> Option<Field> {
    let s = next_state(ctx.state, buf[i]);
    if is_boundary(s) {
        Some(field_at(buf, ctx, i, s))
    } else {
        None
    }
}

/// Context after the first `n` bytes of `buf`, from state `s0`.
pub open spec fn scan_ctx(buf: Seq<u8>, s0: ParseState, n: nat) -> ScanCtx
    decreases n,
{
    if n == 0 {
        ctx_init(s0)
    } else {
        step(buf, scan_ctx(buf, s0, (n - 1) as nat), n - 1)
    }
}

/// Fields emitted by the first `n` bytes of `buf`, from state `s0`.
pub open spec fn scan_fields(buf: Seq<u8>, s0: ParseState, n: nat) -> Seq<Field>
    decreases n,
{
    if n == 0 {
        Seq::empty()
    } else {
        let prev = scan_fields(buf, s0, (n - 1) as nat);
        match emitted(buf, scan_ctx(buf, s0, (n - 1) as nat), n - 1) {
            Some(f) => prev.push(f),
            None => prev,
        }
    }
}

/// The bytes that the tokenizer reads: `buf`, closed by a line feed unless
/// it is empty or already ends with one.
pub open spec fn input_of(buf: Seq<u8>) -> Seq<u8> {
    if buf.len() > 0 && buf.last() != LF {
        buf.push(LF)
    } else {
        buf
    }
}

/// Fields of `buf`, read from state `s0`.
pub open spec fn tokens_from(buf: Seq<u8>, s0: ParseState) -> Seq<Field> {
    scan_fields(input_of(buf), s0, input_of(buf).len())
}

/// Fields of `buf`, read from the start state.
pub open spec fn tokens(buf: Seq<u8>) -> Seq<Field> {
    tokens_from(buf, ParseState::Start)
}

/// Inferred type of one field.
pub open spec fn field_type(f: Field) -> CellType {
    match f {
        Field::Empty => CellType::Null,
        Field::Text(_, k) => if int_kind(k) {
            CellType::I64
        } else if dec_kind(k) {
            CellType::F64
        } else {
            CellType::String
        },
    }
}

/// A field converts: an integer field writes an integer that fits in
/// `i64`, and a decimal field writes decimal text.
pub open spec fn field_ok(f: Field) -> bool {
    match f {
        Field::Empty => true,
        Field::Text(b, k) => if int_kind(k) {
            is_int_text(b)
        } else if dec_kind(k) {
            is_decimal_text(b)
        } else {
            true
        },
    }
}

/// Cell that a field converts to.
pub open spec fn field_cell(f: Field) -> CellView {
    match f {
        Field::Empty => CellView::Null,
        Field::Text(b, k) => if int_kind(k) {
            CellView::Int(int_value(b))
        } else if dec_kind(k) {
            CellView::Dec(lossy_text(b))
        } else {
            CellView::Text(lossy_text(b))
        },
    }
}

/// Types of a run of fields.
pub open spec fn field_types(fs: Seq<Field>) -> Seq<CellType> {
    fs.map_values(|f: Field| field_type(f))
}

/// Merge of the types at the positions of `ts` that fall in column `c` of
/// rows of `cols` cells.
pub open spec fn col_merge(ts: Seq<CellType>, cols: int, c: int) -> CellType
    decreases ts.len(),
{
    if ts.len() == 0 {
        CellType::Null
    } else {
        crate::cell::merge(
            col_merge(ts.drop_last(), cols, c),
            if (ts.len() - 1) % cols == c {
                ts.last()
            } else {
                CellType::Null
            },
        )
    }
}

/// Fields emitted by a prefix are a prefix of those emitted by a longer one.
pub proof fn lemma_scan_prefix(buf: Seq<u8>, s0: ParseState, a: nat, b: nat)
    requires
        a <= b,
    ensures
        scan_fields(buf, s0, a).len() <= scan_fields(buf, s0, b).len(),
        scan_fields(buf, s0, a) =~= scan_fields(buf, s0, b).subrange(
            0,
            scan_fields(buf, s0, a).len() as int,
        ),
    decreases b - a,
{
    if a < b {
        lemma_scan_prefix(buf, s0, a, (b - 1) as nat);
    }
}

/// Whitespace or a carriage return after a number or a decimal suspends the
/// cell, and further whitespace keeps it suspended; a separator or a line
/// feed then ends it exactly as it would have ended the number directly.
pub proof fn lemma_suspended_number_resolves(s: ParseState, b: u8)
    requires
        s == ParseState::CellNumberStart || s == ParseState::CellNumberCurrent || s
            == ParseState::CellDecimalStart || s == ParseState::CellDecimalCurrent || s
            == ParseState::CellDecimalStartWithPointRead || s
            == ParseState::CellDecimalCurrentWithPointRead,
        b == 0x2c || b == LF,
    ensures
        next_state(s, 0x20) is SkippedAssumeEndWhitespace,
        next_state(next_state(s, 0x20), 0x20) == next_state(s, 0x20),
        next_state(next_state(s, 0x20), b) == next_state(s, b),
        next_state(s, 0x0d) is SkippedAssumeEndWhitespace,
        !is_boundary(next_state(s, 0x0d)),
        next_state(next_state(s, 0x0d), LF) == next_state(s, LF),
        is_boundary(next_state(s, b)),
{
}

/// ASCII whitespace test.
pub(crate) fn blank(b: u8) -> (r: bool)
    ensures
        r == is_blank(b),
{
    b == 0x20 || b == 0x09 || b == 0x0a || b == 0x0c || b == 0x0d
}

proof fn lemma_trim_start_skip(s: Seq<u8>, i: int)
    requires
        0 <= i <= s.len(),
        forall|j: int| 0 <= j < i ==> is_blank(#[trigger] s[j]),
    ensures
        trim_start(s) == trim_start(s.subrange(i, s.len() as int)),
    decreases i,
{
    if i > 0 {
        assert(s.drop_first().subrange(i - 1, s.drop_first().len() as int) =~= s.subrange(
            i,
            s.len() as int,
        ));
        assert forall|j: int| 0 <= j < i - 1 implies is_blank(#[trigger] s.drop_first()[j]) by {
            assert(s.drop_first()[j] == s[j + 1]);
        }
        assert(is_blank(s[0]));
        lemma_trim_start_skip(s.drop_first(), i - 1);
    } else {
        assert(s.subrange(0, s.len() as int) =~= s);
    }
}

proof fn lemma_trim_end_skip(s: Seq<u8>, k: int)
    requires
        0 <= k <= s.len(),
        forall|j: int| k <= j < s.len() ==> is_blank(#[trigger] s[j]),
    ensures
        trim_end(s) == trim_end(s.subrange(0, k)),
    decreases s.len() - k,
{
    if k < s.len() {
        assert(s.drop_last().subrange(0, k) =~= s.subrange(0, k));
        assert forall|j: int| k <= j < s.drop_last().len() implies is_blank(
            #[trigger] s.drop_last()[j],
        ) by {
            assert(s.drop_last()[j] == s[j]);
        }
        assert(is_blank(s[s.len() - 1]));
        lemma_trim_end_skip(s.drop_last(), k);
    } else {
        assert(s.subrange(0, k) =~= s);
    }
}

/// `slice` without leading and trailing ASCII whitespace.
pub(crate) fn trim_ascii(slice: &[u8]) -> (r: &[u8])
    ensures
        r@ == trim(slice@),
{
    let n = slice.len();
    let mut st: usize = 0;
    while st < n && blank(slice[st])
        invariant
            st <= n,
            n == slice@.len(),
            forall|j: int| 0 <= j < st ==> is_blank(#[trigger] slice@[j]),
        decreases n - st,
    {
        st = st + 1;
    }
    proof {
        lemma_trim_start_skip(slice@, st as int);
    }
    let rest = &slice[st..n];
    assert(trim_start(rest@) == rest@) by {
        if rest@.len() > 0 {
            assert(rest@[0] == slice@[st as int]);
        }
    }
    let mut ed: usize = rest.len();
    while ed > 0 && blank(rest[ed - 1])
        invariant
            ed <= rest@.len(),
            forall|j: int| ed <= j < rest@.len() ==> is_blank(#[trigger] rest@[j]),
        decreases ed,
    {
        ed = ed - 1;
    }
    proof {
        lemma_trim_end_skip(rest@, ed as int);
        let t = rest@.subrange(0, ed as int);
        if t.len() > 0 {
            assert(t.last() == rest@[ed - 1]);
        }
    }
    &rest[0..ed]
}

proof fn lemma_digits_prefix_grows(s: Seq<u8>, i: int)
    requires
        0 <= i <= s.len(),
        all_digits(s),
    ensures
        digits_value(s.subrange(0, i)) <= digits_value(s),
        0 <= digits_value(s.subrange(0, i)),
    decreases s.len(),
{
    if i == s.len() {
        assert(s.subrange(0, i) =~= s);
        lemma_digits_nonneg(s);
    } else {
        let p = s.drop_last();
        assert(p.subrange(0, i) =~= s.subrange(0, i));
        assert(all_digits(p)) by {
            assert forall|j: int| 0 <= j < p.len() implies 0x30 <= #[trigger] p[j] <= 0x39 by {
                assert(p[j] == s[j]);
            }
        }
        lemma_digits_prefix_grows(p, i);
        lemma_digits_nonneg(p);
        assert(0x30 <= s[s.len() - 1] <= 0x39);
    }
}

proof fn lemma_digits_nonneg(s: Seq<u8>)
    requires
        all_digits(s),
    ensures
        0 <= digits_value(s),
    decreases s.len(),
{
    if s.len() > 0 {
        let p = s.drop_last();
        assert(all_digits(p)) by {
            assert forall|j: int| 0 <= j < p.len() implies 0x30 <= #[trigger] p[j] <= 0x39 by {
                assert(p[j] == s[j]);
            }
        }
        lemma_digits_nonneg(p);
        assert(0x30 <= s[s.len() - 1] <= 0x39);
    }
}

/// Value of a run of decimal digits, if it is non-empty, holds only digits
/// and is at most `2^63`.
fn parse_digits(b: &[u8]) -> (r: Option<u64>)
    ensures
        r is Some <==> (b@.len() > 0 && all_digits(b@) && digits_value(b@)
            <= 9223372036854775808),
        r matches Some(v) ==> v == digits_value(b@),
{
    let n = b.len();
    if n == 0 {
        return None;
    }
    let mut v: u64 = 0;
    let mut i: usize = 0;
    while i < n
        invariant
            i <= n,
            n == b@.len(),
            all_digits(b@.subrange(0, i as int)),
            v == digits_value(b@.subrange(0, i as int)),
            v <= 9223372036854775808,
        decreases n - i,
    {
        let c = b[i];
        assert(b@.subrange(0, i + 1).drop_last() =~= b@.subrange(0, i as int));
        if c < 0x30 || c > 0x39 {
            assert(!all_digits(b@)) by {
                assert(!(0x30 <= b@[i as int] <= 0x39));
            }
            return None;
        }
        let d = (c - 0x30) as u64;
        if v > 922337203685477580 || (v == 922337203685477580 && d > 8) {
            proof {
                if all_digits(b@) {
                    lemma_digits_prefix_grows(b@, i + 1);
                }
            }
            return None;
        }
        v = v * 10 + d;
        i = i + 1;
        assert(all_digits(b@.subrange(0, i as int))) by {
            assert forall|j: int| 0 <= j < i implies 0x30 <= #[trigger] b@.subrange(
                0,
                i as int,
            )[j] <= 0x39 by {
                if j < i - 1 {
                    assert(b@.subrange(0, i as int)[j] == b@.subrange(0, i - 1)[j]);
                }
            }
        }
    }
    assert(b@.subrange(0, n as int) =~= b@);
    Some(v)
}

/// The integer that `b` writes, if it is an optional sign and a non-empty
/// run of digits whose value fits in `i64`.
pub fn parse_int(b: &[u8]) -> (r: Option<i64>)
    ensures
        r is Some <==> is_int_text(b@),
        r matches Some(v) ==> v == int_value(b@),
{
    let n = b.len();
    let signed = n > 0 && (b[0] == 0x2d || b[0] == 0x2b);
    let negative = n > 0 && b[0] == 0x2d;
    let digits = if signed {
        &b[1..n]
    } else {
        &b[0..n]
    };
    assert(digits@ =~= magnitude(b@));
    match parse_digits(digits) {
        None => None,
        Some(m) => {
            if negative {
                if m == 9223372036854775808 {
                    Some(i64::MIN)
                } else {
                    Some(-(m as i64))
                }
            } else if m <= 9223372036854775807 {
                Some(m as i64)
            } else {
                None
            }
        },
    }
}

/// Whether `b` is decimal text: digits and at most one point, with at
/// least one digit.
pub(crate) fn decimal_text(b: &[u8]) -> (r: bool)
    ensures
        r == is_decimal_text(b@),
{
    let n = b.len();
    let mut point: bool = false;
    let mut digit: bool = false;
    let mut i: usize = 0;
    while i < n
        invariant
            i <= n,
            n == b@.len(),
            forall|k: int| 0 <= k < i ==> is_digit(#[trigger] b@[k]) || b@[k] == 0x2e,
            forall|k: int, j: int| 0 <= k < j < i && #[trigger] b@[k] == 0x2e ==> #[trigger] b@[j] != 0x2e,
            point <==> exists|k: int| 0 <= k < i && #[trigger] b@[k] == 0x2e,
            digit <==> exists|k: int| 0 <= k < i && is_digit(#[trigger] b@[k]),
        decreases n - i,
    {
        let c = b[i];
        if c == 0x2e {
            if point {
                assert(!is_decimal_text(b@)) by {
                    let k = choose|k: int| 0 <= k < i && #[trigger] b@[k] == 0x2e;
                    assert(b@[k] == 0x2e && b@[i as int] == 0x2e);
                }
                return false;
            }
            point = true;
        } else if 0x30 <= c && c <= 0x39 {
            digit = true;
        } else {
            assert(!is_decimal_text(b@)) by {
                assert(!(is_digit(b@[i as int]) || b@[i as int] == 0x2e));
            }
            return false;
        }
        i += 1;
    }
    digit
}

} // verus!
