//! Model of the header line: which column names a buffer starts with, and
//! where the header scan stops.
use vstd::prelude::*;

verus! {

/// Whitespace that is skipped before the header: space and 9 to 13.
pub open spec fn is_lead_blank(b: u8) -> bool {
    b == 0x20 || (9 <= b <= 13)
}

/// First position at or after `p` that holds no leading whitespace.
pub open spec fn skip_ws(buf: Seq<u8>, p: int) -> int
    decreases buf.len() - p,
{
    if p < 0 || p >= buf.len() {
        p
    } else if is_lead_blank(buf[p]) {
        skip_ws(buf, p + 1)
    } else {
        p
    }
}

/// First position at or after `p` that holds a double quote, or the length.
pub open spec fn find_quote(buf: Seq<u8>, p: int) -> int
    decreases buf.len() - p,
{
    if p < 0 || p >= buf.len() {
        buf.len() as int
    } else if buf[p] == 0x22 {
        p
    } else {
        find_quote(buf, p + 1)
    }
}

/// Bytes that end a bare header name: separator, carriage return, line feed.
pub open spec fn ends_name(b: u8) -> bool {
    b == 0x2c || b == 0x0d || b == 0x0a
}

/// First position at or after `p` that ends a bare name, or the length.
pub open spec fn find_stop(buf: Seq<u8>, p: int) -> int
    decreases buf.len() - p,
{
    if p < 0 || p >= buf.len() {
        buf.len() as int
    } else if ends_name(buf[p]) {
        p
    } else {
        find_stop(buf, p + 1)
    }
}

/// Column names (as bytes) found from position `p` up to the end of the
/// header line, and the position where the scan stops: at the line break,
/// or at the end of the buffer. A quote left open takes the rest of the
/// buffer as the last name.
pub open spec fn header_from(buf: Seq<u8>, p: int) -> (Seq<Seq<u8>>, int)
    decreases buf.len() - p, 1int,
{
    if p < 0 || p >= buf.len() {
        (Seq::empty(), p)
    } else if buf[p] == 0x0a || buf[p] == 0x0d {
        (Seq::empty(), p)
    } else if buf[p] == 0x2c {
        header_from(buf, p + 1)
    } else if buf[p] == 0x22 {
        let q = find_quote(buf, p + 1);
        if q >= buf.len() {
            (seq![buf.subrange(p + 1, buf.len() as int)], buf.len() as int)
        } else {
            let rest = header_from_after(buf, p, q);
            (seq![buf.subrange(p + 1, q)] + rest.0, rest.1)
        }
    } else {
        let q = find_stop(buf, p + 1);
        if q < buf.len() && buf[q] == 0x2c {
            let rest = header_from_after(buf, p, q);
            (seq![buf.subrange(p, q)] + rest.0, rest.1)
        } else {
            (seq![buf.subrange(p, q)], q)
        }
    }
}

/// The names after a name that spans `p` to `q`.
pub open spec fn header_from_after(buf: Seq<u8>, p: int, q: int) -> (Seq<Seq<u8>>, int)
    decreases buf.len() - p, 0int,
{
    if p < q && q < buf.len() {
        header_from(buf, q + 1)
    } else {
        (Seq::empty(), q)
    }
}

/// Position just past the line break at `p`: two bytes for `\r\n`, one for
/// another break, none at the end of the buffer.
pub open spec fn past_break(buf: Seq<u8>, p: int) -> int {
    if 0 <= p < buf.len() {
        if buf[p] == 0x0d && p + 1 < buf.len() && buf[p + 1] == 0x0a {
            p + 2
        } else {
            p + 1
        }
    } else {
        p
    }
}

/// Position just after the header line of `buf`.
pub open spec fn header_end(buf: Seq<u8>) -> int {
    past_break(buf, header_of(buf).1)
}

/// Column names of the header of `buf`, and where the header scan stops.
pub open spec fn header_of(buf: Seq<u8>) -> (Seq<Seq<u8>>, int) {
    header_from(buf, skip_ws(buf, 0))
}

pub proof fn lemma_skip_ws_bounds(buf: Seq<u8>, p: int)
    requires
        0 <= p <= buf.len(),
    ensures
        p <= skip_ws(buf, p) <= buf.len(),
    decreases buf.len() - p,
{
    if p < buf.len() && is_lead_blank(buf[p]) {
        lemma_skip_ws_bounds(buf, p + 1);
    }
}

pub proof fn lemma_find_quote_bounds(buf: Seq<u8>, p: int)
    requires
        0 <= p,
    ensures
        p <= find_quote(buf, p) || p > buf.len(),
        find_quote(buf, p) <= buf.len(),
        find_quote(buf, p) < buf.len() ==> buf[find_quote(buf, p)] == 0x22,
        forall|j: int| p <= j < find_quote(buf, p) ==> buf[j] != 0x22,
    decreases buf.len() - p,
{
    if p < buf.len() && buf[p] != 0x22 {
        lemma_find_quote_bounds(buf, p + 1);
    }
}

pub proof fn lemma_find_stop_bounds(buf: Seq<u8>, p: int)
    requires
        0 <= p,
    ensures
        p <= find_stop(buf, p) || p > buf.len(),
        find_stop(buf, p) <= buf.len(),
        find_stop(buf, p) < buf.len() ==> ends_name(buf[find_stop(buf, p)]),
        forall|j: int| p <= j < find_stop(buf, p) ==> !ends_name(buf[j]),
    decreases buf.len() - p,
{
    if p < buf.len() && !ends_name(buf[p]) {
        lemma_find_stop_bounds(buf, p + 1);
    }
}

} // verus!
