use vstd::prelude::*;
use vstd::utf8::{decode_utf8, valid_utf8};
use crate::cell::{Cell, CellType, merge};
use crate::header::{ends_name, find_quote, find_stop, header_from, header_from_after, header_end, header_of, lemma_find_quote_bounds, lemma_find_stop_bounds, lemma_skip_ws_bounds, skip_ws};
use crate::parse_state::ParseState;
use crate::scan::{
    col_merge, field_cell, field_ok, field_type, field_types,
    input_of, lemma_scan_prefix, parse_int, decimal_text, scan_ctx, scan_fields, text_of,
    tokens_from, trim_ascii, Field, ScanCtx, LF,
};

verus! {

/// Tokenizer over one byte buffer: the header scanner, and the worker that
/// fills one shard's cells.
pub struct CsvParser<'a> {
    /// Buffer to parse from
    pub byte_buffer: &'a [u8],
    /// Current offset
    pub offset: usize,
    /// Current scan state
    pub state: ParseState,
    /// Headers
    pub header_scanned: Vec<String>,
}

/// Rank of a header-scan state, which bounds the steps taken at one offset.
pub open spec fn header_rank(s: ParseState) -> int {
    match s {
        ParseState::Start => 2,
        ParseState::NewLine => 0,
        _ => 1,
    }
}

/// What the header scan still has to find in state `s` at offset `p`.
pub open spec fn header_pending(buf: Seq<u8>, s: ParseState, p: int) -> (Seq<Seq<u8>>, int) {
    match s {
        ParseState::HeaderQuoteEnd | ParseState::HeaderSep => header_from(buf, p + 1),
        ParseState::NewLine => (Seq::empty(), p),
        _ => header_from(buf, p),
    }
}

/// Texts of a run of names.
pub open spec fn texts(names: Seq<Seq<u8>>) -> Seq<Seq<char>> {
    names.map_values(|n: Seq<u8>| crate::scan::lossy_text(n))
}

/// Views of a run of strings.
pub open spec fn string_views(v: Seq<String>) -> Seq<Seq<char>> {
    v.map_values(|s: String| s@)
}

/// Error that aborts a parse.
#[derive(Debug, Clone, Copy, PartialEq, Eq, Structural)]
pub enum ParseError {
    /// A field that the tokenizer classified as an integer does not fit in
    /// a 64-bit signed integer, or one classified as a decimal holds no
    /// digit.
    MalformedNumber,
    /// The header names no column.
    NoColumns,
    /// The table has more cells than an address space can index.
    TableTooLarge,
}

/// Tokenizer context of a state and the pending cell's bounds.
pub open spec fn ctx_of(
    state: ParseState,
    start: Option<usize>,
    end: Option<usize>,
    save: Option<ParseState>,
) -> ScanCtx {
    ScanCtx {
        state,
        start: match start {
            Some(p) => Some(p as int),
            None => None,
        },
        end: match end {
            Some(e) => Some(e as int),
            None => None,
        },
        save,
    }
}

/// Cells after the fields `fs` were written from the start of `old`.
pub open spec fn cells_written(old: Seq<Cell>, new: Seq<Cell>, fs: Seq<Field>) -> bool {
    &&& new.len() == old.len()
    &&& forall|j: int|
        0 <= j < new.len() ==> (#[trigger] new[j])@ == (if j < fs.len() {
            field_cell(fs[j])
        } else {
            old[j]@
        })
}

/// Column types after merging in the types of the first `k` fields of `fs`.
pub open spec fn types_merged(
    old: Seq<CellType>,
    new: Seq<CellType>,
    fs: Seq<Field>,
    k: int,
) -> bool {
    &&& new.len() == old.len()
    &&& forall|c: int|
        0 <= c < new.len() ==> #[trigger] new[c] == merge(
            old[c],
            col_merge(field_types(fs).take(k), old.len() as int, c),
        )
}

impl<'a> CsvParser<'a> {
    /// A parser at offset 0 of `byte_buffer`, in the start state.
    pub fn new(byte_buffer: &'a [u8]) -> (r: Self)
        ensures
            r.byte_buffer@ == byte_buffer@,
            r.offset == 0,
            r.state == ParseState::Start,
            r.header_scanned@.len() == 0,
    {
        Self { byte_buffer, offset: 0, header_scanned: Vec::new(), state: ParseState::Start }
    }

    /// Byte at the current offset, if any.
    pub fn get_curr_byte(&self) -> (r: Option<u8>)
        ensures
            r == (if self.offset < self.byte_buffer@.len() {
                Some(self.byte_buffer@[self.offset as int])
            } else {
                None
            }),
    {
        if self.offset >= self.byte_buffer.len() {
            None
        } else {
            Some(self.byte_buffer[self.offset])
        }
    }

    /// Move to next byte
    fn move_next(&mut self)
        requires
            old(self).offset < old(self).byte_buffer@.len(),
        ensures
            final(self).offset == old(self).offset + 1,
            final(self).byte_buffer == old(self).byte_buffer,
            final(self).state == old(self).state,
            final(self).header_scanned == old(self).header_scanned,
    {
        assert(self.offset < self.byte_buffer.len());
        self.offset += 1;
    }

    /// Skip all the whitespace
    fn skip_whitespace(&mut self)
        requires
            old(self).offset <= old(self).byte_buffer@.len(),
        ensures
            final(self).offset == skip_ws(old(self).byte_buffer@, old(self).offset as int),
            final(self).byte_buffer == old(self).byte_buffer,
            final(self).state == old(self).state,
            final(self).header_scanned == old(self).header_scanned,
    {
        loop
            invariant
                old(self).offset <= self.offset <= self.byte_buffer@.len(),
                skip_ws(self.byte_buffer@, self.offset as int) == skip_ws(
                    old(self).byte_buffer@,
                    old(self).offset as int,
                ),
                self.byte_buffer == old(self).byte_buffer,
                self.state == old(self).state,
                self.header_scanned == old(self).header_scanned,
            ensures
                self.offset == skip_ws(old(self).byte_buffer@, old(self).offset as int),
                self.byte_buffer == old(self).byte_buffer,
                self.state == old(self).state,
                self.header_scanned == old(self).header_scanned,
            decreases self.byte_buffer@.len() - self.offset,
        {
            match self.get_curr_byte() {
                Some(b) => {
                    if b == 0x20 || (9 <= b && b <= 13) {
                        self.move_next();
                    } else {
                        break ;
                    }
                },
                None => break ,
            }
        }
    }

    /// Header-scan state for the byte at the current offset.
    fn scan_start(&self) -> (r: ParseState)
        ensures
            r == (if self.offset >= self.byte_buffer@.len() {
                ParseState::NewLine
            } else {
                let b = self.byte_buffer@[self.offset as int];
                if b == 0x22 {
                    ParseState::HeaderQuoteStart
                } else if b == 0x2c {
                    ParseState::HeaderSep
                } else if b == 0x0a || b == 0x0d {
                    ParseState::NewLine
                } else {
                    ParseState::HeaderString
                }
            }),
    {
        match self.get_curr_byte() {
            // '"'
            Some(0x22) => ParseState::HeaderQuoteStart,
            // ','
            Some(0x2c) => ParseState::HeaderSep,
            // '\n' or '\r'
            Some(0x0a) | Some(0x0d) | None => ParseState::NewLine,
            _ => ParseState::HeaderString,
        }
    }

    /// Reads a quoted header name; the current byte is its opening quote.
    /// Stops on the closing quote, or at the end of the buffer if there is
    /// none.
    pub fn scan_header_quote(&mut self) -> (r: String)
        requires
            old(self).offset < old(self).byte_buffer@.len(),
        ensures
            ({
                let buf = old(self).byte_buffer@;
                let q = find_quote(buf, old(self).offset + 1);
                &&& final(self).offset == q
                &&& r@ == crate::scan::lossy_text(buf.subrange(old(self).offset + 1, q))
                &&& valid_utf8(buf.subrange(old(self).offset + 1, q)) ==> r@ == decode_utf8(
                    buf.subrange(old(self).offset + 1, q),
                )
                &&& final(self).state == (if q < buf.len() {
                    ParseState::HeaderQuoteEnd
                } else {
                    ParseState::NewLine
                })
            }),
            final(self).byte_buffer == old(self).byte_buffer,
            final(self).header_scanned == old(self).header_scanned,
    {
        self.move_next();
        let starting_point = self.offset;
        proof {
            lemma_find_quote_bounds(self.byte_buffer@, starting_point as int);
        }
        loop
            invariant
                starting_point <= self.offset <= self.byte_buffer@.len(),
                starting_point == old(self).offset + 1,
                find_quote(self.byte_buffer@, self.offset as int) == find_quote(
                    self.byte_buffer@,
                    starting_point as int,
                ),
                self.byte_buffer == old(self).byte_buffer,
                self.header_scanned == old(self).header_scanned,
            ensures
                self.offset == find_quote(self.byte_buffer@, starting_point as int),
                self.state == (if self.offset < self.byte_buffer@.len() {
                    ParseState::HeaderQuoteEnd
                } else {
                    ParseState::NewLine
                }),
                self.byte_buffer == old(self).byte_buffer,
                self.header_scanned == old(self).header_scanned,
            decreases self.byte_buffer@.len() - self.offset,
        {
            match self.get_curr_byte() {
                Some(0x22) => {
                    self.state = ParseState::HeaderQuoteEnd;
                    break ;
                },
                Some(_) => self.move_next(),
                None => {
                    self.state = ParseState::NewLine;
                    break ;
                },
            }
        }
        text_of(&self.byte_buffer[starting_point..self.offset])
    }

    /// Reads a bare header name starting at the current byte, up to the
    /// separator, a line break, or the end of the buffer.
    pub fn scan_header_string(&mut self) -> (r: String)
        requires
            old(self).offset < old(self).byte_buffer@.len(),
        ensures
            ({
                let buf = old(self).byte_buffer@;
                let q = find_stop(buf, old(self).offset + 1);
                &&& final(self).offset == q
                &&& r@ == crate::scan::lossy_text(buf.subrange(old(self).offset as int, q))
                &&& valid_utf8(buf.subrange(old(self).offset as int, q)) ==> r@ == decode_utf8(
                    buf.subrange(old(self).offset as int, q),
                )
                &&& final(self).state == (if q < buf.len() && buf[q] == 0x2c {
                    ParseState::HeaderSep
                } else {
                    ParseState::NewLine
                })
            }),
            final(self).byte_buffer == old(self).byte_buffer,
            final(self).header_scanned == old(self).header_scanned,
    {
        let starting_point = self.offset;
        self.move_next();
        proof {
            lemma_find_stop_bounds(self.byte_buffer@, starting_point + 1);
        }
        loop
            invariant
                starting_point < self.offset <= self.byte_buffer@.len(),
                starting_point == old(self).offset,
                find_stop(self.byte_buffer@, self.offset as int) == find_stop(
                    self.byte_buffer@,
                    starting_point + 1,
                ),
                self.byte_buffer == old(self).byte_buffer,
                self.header_scanned == old(self).header_scanned,
            ensures
                self.offset == find_stop(self.byte_buffer@, starting_point + 1),
                self.state == (if self.offset < self.byte_buffer@.len()
                    && self.byte_buffer@[self.offset as int] == 0x2c {
                    ParseState::HeaderSep
                } else {
                    ParseState::NewLine
                }),
                self.byte_buffer == old(self).byte_buffer,
                self.header_scanned == old(self).header_scanned,
            decreases self.byte_buffer@.len() - self.offset,
        {
            match self.get_curr_byte() {
                Some(0x2c) => {
                    self.state = ParseState::HeaderSep;
                    break ;
                },
                Some(0x0d) | Some(0x0a) | None => {
                    self.state = ParseState::NewLine;
                    break ;
                },
                Some(_) => self.move_next(),
            }
        }
        text_of(&self.byte_buffer[starting_point..self.offset])
    }

    /// Scans the header line from the start of the buffer: its column names
    /// (after those already held), and the position just after the line.
    pub fn scan_header(&mut self) -> (r: (Vec<String>, usize))
        requires
            old(self).offset == 0,
        ensures
            ({
                let h = header_of(old(self).byte_buffer@);
                &&& string_views(r.0@) == string_views(old(self).header_scanned@) + texts(h.0)
                &&& r.1 == header_end(old(self).byte_buffer@)
            }),
            r.1 <= old(self).byte_buffer@.len(),
    {
        proof {
            lemma_skip_ws_bounds(self.byte_buffer@, 0);
        }
        self.skip_whitespace();
        self.state = ParseState::Start;
        let ghost buf = self.byte_buffer@;
        let ghost total = header_of(buf);
        let ghost names: Seq<Seq<u8>> = Seq::empty();
        proof {
            assert(string_views(self.header_scanned@) =~= string_views(old(self).header_scanned@)
                + texts(names));
        }
        loop
            invariant
                buf == self.byte_buffer@,
                self.offset <= buf.len(),
                names + header_pending(buf, self.state, self.offset as int).0 == total.0,
                header_pending(buf, self.state, self.offset as int).1 == total.1,
                string_views(self.header_scanned@) == string_views(old(self).header_scanned@)
                    + texts(names),
                self.state == ParseState::Start || self.state == ParseState::NewLine || (
                self.offset < buf.len() && (self.state == ParseState::HeaderQuoteEnd || (
                self.state == ParseState::HeaderQuoteStart && buf[self.offset as int] == 0x22)
                    || (self.state == ParseState::HeaderSep && buf[self.offset as int] == 0x2c)
                    || (self.state == ParseState::HeaderString && buf[self.offset as int]
                    != 0x22 && !ends_name(buf[self.offset as int])))),
            ensures
                names == total.0,
                self.offset == total.1,
                string_views(self.header_scanned@) == string_views(old(self).header_scanned@)
                    + texts(names),
            decreases 3 * (buf.len() - self.offset) + header_rank(self.state),
        {
            let ghost p = self.offset as int;
            match self.state {
                ParseState::Start => self.state = self.scan_start(),
                ParseState::HeaderQuoteStart => {
                    let scanned_header = self.scan_header_quote();
                    proof {
                        lemma_find_quote_bounds(buf, p + 1);
                        let q = find_quote(buf, p + 1);
                        let nm = buf.subrange(p + 1, q);
                        if q < buf.len() {
                            assert(header_from_after(buf, p, q) == header_from(buf, q + 1));
                        }
                        assert(seq![nm] + header_pending(buf, self.state, self.offset as int).0
                            == header_from(buf, p).0);
                        assert(names.push(nm) + header_pending(
                            buf,
                            self.state,
                            self.offset as int,
                        ).0 =~= names + header_from(buf, p).0);
                        names = names.push(nm);
                    }
                    let ghost before = self.header_scanned@;
                    let ghost added = scanned_header@;
                    self.header_scanned.push(scanned_header);
                    proof {
                        assert(self.header_scanned@ == before.push(scanned_header));
                        assert(string_views(self.header_scanned@) =~= string_views(before).push(
                            added,
                        ));
                        assert(texts(names) =~= texts(names.drop_last()).push(added));
                        assert(string_views(self.header_scanned@) =~= string_views(
                            old(self).header_scanned@,
                        ) + texts(names));
                    }
                },
                ParseState::HeaderString => {
                    let scanned_string = self.scan_header_string();
                    proof {
                        lemma_find_stop_bounds(buf, p + 1);
                        let q = find_stop(buf, p + 1);
                        let nm = buf.subrange(p, q);
                        if q < buf.len() && buf[q] == 0x2c {
                            assert(header_from_after(buf, p, q) == header_from(buf, q + 1));
                        }
                        assert(seq![nm] + header_pending(buf, self.state, self.offset as int).0
                            == header_from(buf, p).0);
                        assert(names.push(nm) + header_pending(
                            buf,
                            self.state,
                            self.offset as int,
                        ).0 =~= names + header_from(buf, p).0);
                        names = names.push(nm);
                    }
                    let ghost before = self.header_scanned@;
                    let ghost added = scanned_string@;
                    self.header_scanned.push(scanned_string);
                    proof {
                        assert(self.header_scanned@ == before.push(scanned_string));
                        assert(string_views(self.header_scanned@) =~= string_views(before).push(
                            added,
                        ));
                        assert(texts(names) =~= texts(names.drop_last()).push(added));
                        assert(string_views(self.header_scanned@) =~= string_views(
                            old(self).header_scanned@,
                        ) + texts(names));
                    }
                },
                ParseState::NewLine => {
                    proof {
                        assert(names + Seq::<Seq<u8>>::empty() =~= names);
                    }
                    break ;
                },
                _ => {
                    self.move_next();
                    self.state = self.scan_start();
                },
            }
        }
        if self.offset < self.byte_buffer.len() {
            if self.byte_buffer[self.offset] == 0x0d && self.offset + 1 < self.byte_buffer.len()
                && self.byte_buffer[self.offset + 1] == 0x0a {
                self.offset += 2;
            } else {
                self.offset += 1;
            }
        }
        (self.header_scanned.clone(), self.offset)
    }

    /// Converts a field's trimmed text by the state that closed it: an
    /// integer, a decimal, or a string.
    fn convert_from_slice(slice: &[u8], state: ParseState) -> (r: Result<
        (Cell, CellType),
        ParseError,
    >)
        ensures
            r is Ok <==> field_ok(Field::Text(slice@, state)),
            r matches Ok((c, t)) ==> c@ == field_cell(Field::Text(slice@, state)) && t
                == field_type(Field::Text(slice@, state)),
            r matches Ok((Cell::String(t), _)) ==> (valid_utf8(slice@) ==> t@ == decode_utf8(
                slice@,
            )),
            r matches Ok((Cell::Decimal(t), _)) ==> (valid_utf8(slice@) ==> t@ == decode_utf8(
                slice@,
            )),
    {
        match state {
            ParseState::CellNumberStart | ParseState::CellNumberCurrent
            | ParseState::CellNumberEnd | ParseState::CellQuoteNumberEnd => {
                match parse_int(slice) {
                    Some(v) => Ok((Cell::Number(v), CellType::I64)),
                    None => Err(ParseError::MalformedNumber),
                }
            },
            ParseState::CellDecimalEnd | ParseState::CellDecimalEndWithPointRead
            | ParseState::CellQuoteDecimalEnd | ParseState::CellQuoteDecimalEndWithPointRead => {
                if decimal_text(slice) {
                    Ok((Cell::Decimal(text_of(slice)), CellType::F64))
                } else {
                    Err(ParseError::MalformedNumber)
                }
            },
            _ => Ok((Cell::String(text_of(slice)), CellType::String)),
        }
    }

    /// Type after observing `curr` in a column that is still empty.
    pub fn aggregate_from_null(curr: CellType) -> (r: CellType)
        ensures
            r == merge(CellType::Null, curr),
    {
        curr
    }

    /// Type after observing `curr` in a column of decimals.
    pub fn aggregate_from_f64(curr: CellType) -> (r: CellType)
        ensures
            r == merge(CellType::F64, curr),
    {
        match curr {
            CellType::String => CellType::String,
            _ => CellType::F64,
        }
    }

    /// Type after observing `curr` in a column of integers.
    pub fn aggregate_from_i64(curr: CellType) -> (r: CellType)
        ensures
            r == merge(CellType::I64, curr),
    {
        match curr {
            CellType::F64 => CellType::F64,
            CellType::String => CellType::String,
            _ => CellType::I64,
        }
    }

    /// Merges an observed type `curr` into a column's running type.
    pub fn agg_type(aggregate_type: CellType, curr: CellType) -> (r: CellType)
        ensures
            r == merge(aggregate_type, curr),
    {
        match aggregate_type {
            CellType::Null => Self::aggregate_from_null(curr),
            CellType::F64 => Self::aggregate_from_f64(curr),
            CellType::I64 => Self::aggregate_from_i64(curr),
            _ => CellType::String,
        }
    }

    /// The field that ends at position `index`, converted.
    fn pending_field(
        buf: &[u8],
        start: Option<usize>,
        end: Option<usize>,
        save_state: Option<ParseState>,
        state: ParseState,
        index: usize,
    ) -> (r: Result<(Cell, CellType), ParseError>)
        requires
            index <= buf@.len(),
            start matches Some(p) ==> p <= index,
            end matches Some(e) ==> e < index,
        ensures
            ({
                let f = crate::scan::field_at(
                    input_of(buf@),
                    ctx_of(state, start, end, save_state),
                    index as int,
                    state,
                );
                &&& r is Ok <==> field_ok(f)
                &&& r matches Ok((c, t)) ==> c@ == field_cell(f) && t == field_type(f)
            }),
    {
        if start.is_none() && end.is_none() {
            Ok((Cell::Null, CellType::Null))
        } else {
            let ep = match end {
                Some(e) => e,
                None => index,
            };
            let sp = match start {
                Some(p) => p,
                None => index,
            };
            let kind = match save_state {
                Some(k) => k,
                None => state,
            };
            if sp < ep {
                let slice = &buf[sp..ep];
                assert(slice@ =~= input_of(buf@).subrange(sp as int, ep as int));
                Self::convert_from_slice(trim_ascii(slice), kind)
            } else {
                Ok((Cell::Null, CellType::Null))
            }
        }
    }

    /// Writes the cell of the last of `fields` at `arr_index` and merges its
    /// type into its column.
    fn record(
        column_data: &mut [Cell],
        res_type: &mut [CellType],
        arr_index: usize,
        cell: Cell,
        t: CellType,
        fields: Ghost<Seq<Field>>,
    )
        requires
            fields@.len() == arr_index + 1,
            arr_index < old(column_data)@.len(),
            old(res_type)@.len() > 0,
            cell@ == field_cell(fields@.last()),
            t == field_type(fields@.last()),
        ensures
            final(column_data)@ == old(column_data)@.update(arr_index as int, cell),
            final(res_type)@.len() == old(res_type)@.len(),
            forall|prev: Seq<CellType>|
                types_merged(prev, old(res_type)@, fields@.drop_last(), arr_index as int)
                    ==> types_merged(prev, final(res_type)@, fields@, arr_index + 1),
    {
        let cols = res_type.len();
        let col = arr_index % cols;
        column_data[arr_index] = cell;
        let prev_type = res_type[col];
        let val = Self::agg_type(prev_type, t);
        res_type[col] = val;
        proof {
            let k = arr_index as int;
            let ts = field_types(fields@).take(k + 1);
            assert(ts.drop_last() =~= field_types(fields@.drop_last()).take(k));
            assert(ts.last() == t);
            assert forall|prev: Seq<CellType>|
                types_merged(prev, old(res_type)@, fields@.drop_last(), k) implies types_merged(
                prev,
                res_type@,
                fields@,
                k + 1,
            ) by {
                assert forall|cc: int| 0 <= cc < res_type@.len() implies #[trigger] res_type@[cc]
                    == merge(prev[cc], col_merge(ts, prev.len() as int, cc)) by {
                    let pre = col_merge(ts.drop_last(), cols as int, cc);
                    assert(old(res_type)@[cc] == merge(prev[cc], pre));
                    crate::cell::lemma_merge_laws(prev[cc], pre, t);
                    crate::cell::lemma_merge_laws(prev[cc], pre, CellType::Null);
                    crate::cell::lemma_merge_laws(merge(prev[cc], pre), CellType::Null, CellType::Null);
                }
            }
        }
    }

    /// Reads byte `c` at position `index`: moves the state and the pending
    /// cell's bounds, and returns the converted field if a boundary is reached.
    fn advance(
        &mut self,
        index: usize,
        c: u8,
        start: &mut Option<usize>,
        end: &mut Option<usize>,
        save_state: &mut Option<ParseState>,
    ) -> (r: Option<Result<(Cell, CellType), ParseError>>)
        requires
            index < input_of(old(self).byte_buffer@).len(),
            old(self).byte_buffer@.len() < usize::MAX,
            c == input_of(old(self).byte_buffer@)[index as int],
            *old(start) matches Some(p) ==> p <= index,
            *old(end) matches Some(e) ==> e < index,
        ensures
            ({
                let inp = input_of(old(self).byte_buffer@);
                let ctx = ctx_of(old(self).state, *old(start), *old(end), *old(save_state));
                let s = crate::parse_state::next_state(ctx.state, c);
                &&& ctx_of(final(self).state, *final(start), *final(end), *final(save_state))
                    == crate::scan::step(inp, ctx, index as int)
                &&& final(self).state == s
                &&& (r is Some <==> crate::scan::is_boundary(s))
                &&& r matches Some(conv) ==> {
                    let f = crate::scan::field_at(inp, ctx, index as int, s);
                    &&& conv is Ok <==> field_ok(f)
                    &&& conv matches Ok((cl, t)) ==> cl@ == field_cell(f) && t == field_type(f)
                }
            }),
            final(self).byte_buffer == old(self).byte_buffer,
            *final(start) matches Some(p) ==> p <= index + 1,
            *final(end) matches Some(e) ==> e < index + 1,
    {
        let prev_state = self.state;
        self.state = ParseState::get_scan_state_from_data(self.state, c);
        match self.state {
            ParseState::Start | ParseState::CellString
            | ParseState::CellDecimalStartWithPointRead | ParseState::CellNumberStart => {
                *start = Some(index);
                None
            },
            // The text of a quoted cell starts after its opening quote.
            ParseState::CellQuoteStart => {
                *start = Some(index + 1);
                None
            },
            ParseState::CellNumberEnd | ParseState::CellDecimalEnd
            | ParseState::CellDecimalEndWithPointRead | ParseState::CellSep
            | ParseState::NewLine => {
                let converted = Self::pending_field(
                    self.byte_buffer,
                    *start,
                    *end,
                    *save_state,
                    self.state,
                    index,
                );
                *start = None;
                *end = None;
                *save_state = None;
                Some(converted)
            },
            // The text of a quoted cell ends before its closing quote.
            ParseState::CellQuoteEnd | ParseState::CellQuoteNumberEnd
            | ParseState::CellQuoteDecimalEnd | ParseState::CellQuoteDecimalEndWithPointRead => {
                *end = Some(index);
                *save_state = Some(self.state);
                None
            },
            ParseState::CarriageRet => {
                if end.is_none() {
                    *end = Some(index);
                    *save_state = Some(prev_state);
                }
                None
            },
            _ => None,
        }
    }

    /// Tokenizes the whole buffer from the current state, writing the cells
    /// in order from the start of `column_data` (those past its end are
    /// dropped) and merging the type of each written cell into the running
    /// type of its column. Fails if a field classified as an integer does
    /// not convert.
    pub fn parse_content_on_buffer(
        &mut self,
        column_data: &mut [Cell],
        res_type: &mut [CellType],
    ) -> (r: Result<(), ParseError>)
        requires
            old(res_type)@.len() > 0,
            old(self).byte_buffer@.len() < usize::MAX,
        ensures
            ({
                let fs = tokens_from(old(self).byte_buffer@, old(self).state);
                &&& r is Ok <==> forall|j: int| 0 <= j < fs.len() ==> field_ok(#[trigger] fs[j])
                &&& r is Ok ==> cells_written(old(column_data)@, final(column_data)@, fs)
                &&& r is Ok ==> types_merged(
                    old(res_type)@,
                    final(res_type)@,
                    fs,
                    if fs.len() < old(column_data)@.len() {
                        fs.len() as int
                    } else {
                        old(column_data)@.len() as int
                    },
                )
            }),
            final(res_type)@.len() == old(res_type)@.len(),
            final(column_data)@.len() == old(column_data)@.len(),
    {
        let buf = self.byte_buffer;
        let n = buf.len();
        let cols = res_type.len();
        let cd_len = column_data.len();
        let total = if n > 0 && buf[n - 1] != LF {
            n + 1
        } else {
            n
        };
        let ghost s0 = self.state;
        let ghost inp = input_of(buf@);
        let ghost fields: Seq<Field> = Seq::empty();
        let mut start: Option<usize> = None;
        let mut end: Option<usize> = None;
        let mut save_state: Option<ParseState> = None;
        let mut arr_index: usize = 0;
        let mut index: usize = 0;
        proof {
            assert(cells_written(old(column_data)@, column_data@, fields));
            assert(field_types(fields).take(0) =~= Seq::<CellType>::empty());
            assert(types_merged(old(res_type)@, res_type@, fields, 0)) by {
                assert forall|c: int| 0 <= c < res_type@.len() implies #[trigger] res_type@[c]
                    == merge(old(res_type)@[c], col_merge(field_types(fields).take(0), cols as int, c)) by {
                    crate::cell::lemma_merge_laws(res_type@[c], res_type@[c], res_type@[c]);
                }
            }
        }
        while index < total
            invariant
                buf@ == old(self).byte_buffer@,
                self.byte_buffer == buf,
                s0 == old(self).state,
                n == buf@.len(),
                n < usize::MAX,
                inp == input_of(buf@),
                total == inp.len(),
                index <= total,
                cols == res_type@.len(),
                cols == old(res_type)@.len(),
                cols > 0,
                cd_len == column_data@.len(),
                cd_len == old(column_data)@.len(),
                ctx_of(self.state, start, end, save_state) == scan_ctx(inp, s0, index as nat),
                fields == scan_fields(inp, s0, index as nat),
                start matches Some(p) ==> p <= index,
                end matches Some(e) ==> e < index,
                arr_index == (if fields.len() < cd_len {
                    fields.len()
                } else {
                    cd_len as nat
                }),
                forall|j: int| 0 <= j < fields.len() ==> field_ok(#[trigger] fields[j]),
                cells_written(old(column_data)@, column_data@, fields),
                types_merged(old(res_type)@, res_type@, fields, arr_index as int),
            decreases total - index,
        {
            let c = if index < n {
                buf[index]
            } else {
                LF
            };
            let ghost ctx = scan_ctx(inp, s0, index as nat);
            assert(c == inp[index as int]);
            let step = self.advance(index, c, &mut start, &mut end, &mut save_state);
            match step {
                None => {},
                Some(converted) => {
                    let ghost f = crate::scan::field_at(inp, ctx, index as int, self.state);
                    proof {
                        fields = fields.push(f);
                        assert(fields.drop_last() == scan_fields(inp, s0, index as nat));
                        assert(fields == scan_fields(inp, s0, (index + 1) as nat));
                    }
                    match converted {
                        Err(e) => {
                            proof {
                                lemma_scan_prefix(inp, s0, (index + 1) as nat, total as nat);
                                let fs = scan_fields(inp, s0, total as nat);
                                assert(tokens_from(buf@, s0) == fs);
                                let k = fields.len() - 1;
                                assert(fields[k] == f);
                                assert(fs.subrange(0, fields.len() as int)[k] == fs[k]);
                                assert(fs[k] == f);
                                assert(!field_ok(tokens_from(buf@, s0)[fields.len() - 1]));
                            }
                            return Err(e);
                        },
                        Ok((push_value, result_type)) => {
                            if arr_index < cd_len {
                                Self::record(
                                    column_data,
                                    res_type,
                                    arr_index,
                                    push_value,
                                    result_type,
                                    Ghost(fields),
                                );
                                arr_index += 1;
                            } else {
                                proof {
                                    assert(field_types(fields).take(arr_index as int)
                                        =~= field_types(fields.drop_last()).take(arr_index as int));
                                }
                            }
                        },
                    }
                },
            }
            index += 1;
        }
        Ok(())
    }
}

} // verus!
