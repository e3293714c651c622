use vstd::prelude::*;

verus! {

/// Lexical state of the tokenizer: where it stands within the cell grammar.
/// At a cell boundary the state also tells how the cell's text converts.
#[derive(Copy, Clone, Debug, PartialEq, Eq, Structural)]
pub enum ParseState {
    /// Start of parsing section
    Start,
    /// Reading Header String
    HeaderString,
    /// Reading Quote Start
    HeaderQuoteStart,
    /// Reading Closing Quote
    HeaderQuoteEnd,
    /// Reading Separator in header
    HeaderSep,
    /// Cell value start, which is a string
    CellString,
    /// Cell value, which is a string
    CellCurrent,
    /// Cell quote start, which is a string
    CellQuoteStart,
    /// Cell quote body, which is a string
    CellQuoteCurrent,
    /// Cell quote end, which is a string
    CellQuoteEnd,
    /// Cell quote start, which is a number
    CellQuoteNumberStart,
    /// Cell quote body, which is a number
    CellQuoteNumberCurrent,
    /// Cell quote end, which is a number
    CellQuoteNumberEnd,
    /// Cell quote start, which is a decimal
    CellQuoteDecimalStart,
    /// Cell quote body, which is a decimal
    CellQuoteDecimalCurrent,
    /// Cell quote end, which is a decimal
    CellQuoteDecimalEnd,
    /// Start reading number
    CellNumberStart,
    /// Reading number
    CellNumberCurrent,
    /// End reading number
    CellNumberEnd,
    /// Start reading decimal number
    CellDecimalStart,
    /// Read decimal number
    CellDecimalCurrent,
    /// End reading decimal number
    CellDecimalEnd,
    /// Decimal number whose point has been read: start
    CellDecimalStartWithPointRead,
    /// Decimal number whose point has been read: body
    CellDecimalCurrentWithPointRead,
    /// Decimal number whose point has been read: end
    CellDecimalEndWithPointRead,
    /// Quoted decimal number whose point has been read: start
    CellQuoteDecimalStartWithPointRead,
    /// Quoted decimal number whose point has been read: body
    CellQuoteDecimalCurrentWithPointRead,
    /// Quoted decimal number whose point has been read: end
    CellQuoteDecimalEndWithPointRead,
    /// Carriage return read
    CarriageRet,
    /// Read separator
    CellSep,
    /// Skip character
    SkipChar,
    /// Skip whitespace within cell
    SkippedStartWhitespace,
    /// Whitespace (or a carriage return) after a number: the cell may have
    /// ended, as the remembered state decides once a decisive byte comes.
    SkippedAssumeEndWhitespace(PrevState),
    /// Reading new line character
    NewLine,
    /// File end
    EndFile,
}

/// The state remembered while whitespace after a number is skipped.
#[derive(Copy, Clone, Debug, PartialEq, Eq, Structural)]
pub enum PrevState {
    /// Start of parsing section
    Start,
    /// Cell value start, which is a string
    CellString,
    /// Cell value, which is a string
    CellCurrent,
    /// Cell quote start, which is a string
    CellQuoteStart,
    /// Cell quote body, which is a string
    CellQuoteCurrent,
    /// Cell quote end, which is a string
    CellQuoteEnd,
    /// Cell quote start, which is a number
    CellQuoteNumberStart,
    /// Cell quote body, which is a number
    CellQuoteNumberCurrent,
    /// Cell quote end, which is a number
    CellQuoteNumberEnd,
    /// Cell quote start, which is a decimal
    CellQuoteDecimalStart,
    /// Cell quote body, which is a decimal
    CellQuoteDecimalCurrent,
    /// Cell quote end, which is a decimal
    CellQuoteDecimalEnd,
    /// Start reading number
    CellNumberStart,
    /// Reading number
    CellNumberCurrent,
    /// End reading number
    CellNumberEnd,
    /// Start reading decimal number
    CellDecimalStart,
    /// Read decimal number
    CellDecimalCurrent,
    /// End reading decimal number
    CellDecimalEnd,
    /// Decimal number whose point has been read: start
    CellDecimalStartWithPointRead,
    /// Decimal number whose point has been read: body
    CellDecimalCurrentWithPointRead,
    /// Decimal number whose point has been read: end
    CellDecimalEndWithPointRead,
    /// Quoted decimal number whose point has been read: start
    CellQuoteDecimalStartWithPointRead,
    /// Quoted decimal number whose point has been read: body
    CellQuoteDecimalCurrentWithPointRead,
    /// Quoted decimal number whose point has been read: end
    CellQuoteDecimalEndWithPointRead,
    /// Read separator
    CellSep,
    /// Skip character
    SkipChar,
    /// Reading new line character
    NewLine,
    /// File end
    EndFile,
}

/// Boundary state that a remembered state resolves to.
pub open spec fn end_of(p: PrevState) -> ParseState {
    match p {
        PrevState::CellString | PrevState::CellCurrent => ParseState::CellSep,
        PrevState::CellDecimalStart | PrevState::CellDecimalCurrent
        | PrevState::CellDecimalEnd => ParseState::CellDecimalEnd,
        PrevState::CellDecimalCurrentWithPointRead | PrevState::CellDecimalEndWithPointRead
        | PrevState::CellDecimalStartWithPointRead => ParseState::CellDecimalEndWithPointRead,
        PrevState::CellNumberStart | PrevState::CellNumberCurrent
        | PrevState::CellNumberEnd => ParseState::CellNumberEnd,
        PrevState::CellQuoteStart | PrevState::CellQuoteCurrent
        | PrevState::CellQuoteEnd => ParseState::CellQuoteEnd,
        PrevState::CellQuoteDecimalStart | PrevState::CellQuoteDecimalCurrent
        | PrevState::CellQuoteDecimalEnd => ParseState::CellQuoteDecimalEnd,
        PrevState::CellQuoteDecimalStartWithPointRead
        | PrevState::CellQuoteDecimalCurrentWithPointRead
        | PrevState::CellQuoteDecimalEndWithPointRead => ParseState::CellQuoteDecimalEndWithPointRead,
        PrevState::CellQuoteNumberStart | PrevState::CellQuoteNumberCurrent
        | PrevState::CellQuoteNumberEnd => ParseState::CellQuoteNumberEnd,
        PrevState::CellSep => ParseState::CellSep,
        PrevState::EndFile => ParseState::EndFile,
        PrevState::NewLine => ParseState::NewLine,
        PrevState::SkipChar => ParseState::SkipChar,
        PrevState::Start => ParseState::Start,
    }
}

/// Transition on a decimal point.
pub open spec fn on_point(s: ParseState) -> ParseState {
    match s {
        ParseState::CellNumberCurrent | ParseState::CellNumberStart => ParseState::CellDecimalCurrentWithPointRead,
        ParseState::CellQuoteStart => ParseState::CellQuoteDecimalStartWithPointRead,
        ParseState::CellQuoteCurrent => ParseState::CellQuoteCurrent,
        ParseState::CellQuoteNumberStart | ParseState::CellQuoteNumberCurrent
        | ParseState::CellQuoteDecimalStart
        | ParseState::CellQuoteDecimalCurrent => ParseState::CellQuoteDecimalCurrentWithPointRead,
        ParseState::CellQuoteDecimalStartWithPointRead
        | ParseState::CellQuoteDecimalCurrentWithPointRead => ParseState::CellQuoteCurrent,
        ParseState::CellString | ParseState::CellDecimalStartWithPointRead
        | ParseState::CellDecimalCurrentWithPointRead | ParseState::CellCurrent => ParseState::CellCurrent,
        ParseState::SkippedAssumeEndWhitespace(_) => ParseState::CellCurrent,
        _ => ParseState::CellDecimalStartWithPointRead,
    }
}

/// Transition on a byte of no special class.
pub open spec fn on_other(s: ParseState) -> ParseState {
    match s {
        ParseState::CellQuoteStart | ParseState::CellQuoteCurrent
        | ParseState::CellQuoteNumberStart | ParseState::CellQuoteNumberCurrent
        | ParseState::CellQuoteDecimalStart | ParseState::CellQuoteDecimalCurrent
        | ParseState::CellQuoteDecimalStartWithPointRead
        | ParseState::CellQuoteDecimalCurrentWithPointRead => ParseState::CellQuoteCurrent,
        ParseState::CellString | ParseState::CellCurrent | ParseState::CellNumberStart
        | ParseState::CellDecimalStart | ParseState::CellNumberCurrent
        | ParseState::CellDecimalCurrent | ParseState::CellDecimalStartWithPointRead
        | ParseState::CellDecimalCurrentWithPointRead => ParseState::CellCurrent,
        ParseState::SkippedAssumeEndWhitespace(_) => ParseState::CellCurrent,
        _ => ParseState::CellString,
    }
}

/// Transition on the separator.
pub open spec fn on_separator(s: ParseState) -> ParseState {
    match s {
        ParseState::CellQuoteCurrent | ParseState::CellQuoteStart
        | ParseState::CellQuoteNumberStart | ParseState::CellQuoteNumberCurrent
        | ParseState::CellQuoteDecimalCurrent | ParseState::CellQuoteDecimalStart
        | ParseState::CellQuoteDecimalStartWithPointRead
        | ParseState::CellQuoteDecimalCurrentWithPointRead => ParseState::CellQuoteCurrent,
        ParseState::CellNumberCurrent | ParseState::CellNumberStart => ParseState::CellNumberEnd,
        ParseState::CellDecimalCurrent | ParseState::CellDecimalStart
        | ParseState::CellDecimalStartWithPointRead
        | ParseState::CellDecimalCurrentWithPointRead => ParseState::CellDecimalEnd,
        ParseState::SkippedAssumeEndWhitespace(v) => end_of(v),
        _ => ParseState::CellSep,
    }
}

/// Transition on a digit.
pub open spec fn on_digit(s: ParseState) -> ParseState {
    match s {
        ParseState::CellQuoteDecimalStartWithPointRead
        | ParseState::CellQuoteDecimalCurrentWithPointRead => ParseState::CellQuoteDecimalCurrentWithPointRead,
        ParseState::CellQuoteStart | ParseState::CellQuoteNumberStart
        | ParseState::CellQuoteNumberCurrent => ParseState::CellQuoteNumberCurrent,
        ParseState::CellQuoteDecimalStart
        | ParseState::CellQuoteDecimalCurrent => ParseState::CellQuoteDecimalCurrent,
        ParseState::CellQuoteCurrent => ParseState::CellQuoteCurrent,
        ParseState::CellNumberCurrent | ParseState::CellNumberStart => ParseState::CellNumberCurrent,
        ParseState::CellDecimalStartWithPointRead
        | ParseState::CellDecimalCurrentWithPointRead => ParseState::CellDecimalCurrentWithPointRead,
        ParseState::CellDecimalCurrent | ParseState::CellDecimalStart => ParseState::CellDecimalCurrent,
        ParseState::CellString | ParseState::CellCurrent => ParseState::CellCurrent,
        ParseState::SkippedAssumeEndWhitespace(_) => ParseState::CellCurrent,
        _ => ParseState::CellNumberStart,
    }
}

/// Transition on a line feed.
pub open spec fn on_lf(s: ParseState) -> ParseState {
    match s {
        ParseState::CellQuoteCurrent | ParseState::CellQuoteStart
        | ParseState::CellQuoteNumberStart | ParseState::CellQuoteNumberCurrent
        | ParseState::CellQuoteDecimalCurrent | ParseState::CellQuoteDecimalStart
        | ParseState::CellQuoteDecimalStartWithPointRead
        | ParseState::CellQuoteDecimalCurrentWithPointRead => ParseState::CellQuoteCurrent,
        ParseState::CellNumberCurrent | ParseState::CellNumberStart => ParseState::CellNumberEnd,
        ParseState::CellDecimalCurrent | ParseState::CellDecimalStart
        | ParseState::CellDecimalStartWithPointRead
        | ParseState::CellDecimalCurrentWithPointRead => ParseState::CellDecimalEnd,
        ParseState::SkippedAssumeEndWhitespace(v) => end_of(v),
        _ => ParseState::NewLine,
    }
}

/// Transition on a double quote.
pub open spec fn on_quote(s: ParseState) -> ParseState {
    match s {
        ParseState::CellQuoteStart | ParseState::CellQuoteCurrent => ParseState::CellQuoteEnd,
        ParseState::CellString | ParseState::CellCurrent => ParseState::CellCurrent,
        ParseState::CellQuoteNumberStart | ParseState::CellQuoteNumberCurrent => ParseState::CellQuoteNumberEnd,
        ParseState::CellQuoteDecimalStart | ParseState::CellQuoteDecimalCurrent => ParseState::CellQuoteDecimalEnd,
        ParseState::CellQuoteDecimalStartWithPointRead
        | ParseState::CellQuoteDecimalCurrentWithPointRead => ParseState::CellQuoteDecimalEndWithPointRead,
        ParseState::SkippedAssumeEndWhitespace(v) => end_of(v),
        _ => ParseState::CellQuoteStart,
    }
}

/// Transition on a carriage return.
pub open spec fn on_cr(s: ParseState) -> ParseState {
    match s {
        ParseState::CellQuoteCurrent | ParseState::CellQuoteStart
        | ParseState::CellQuoteNumberStart | ParseState::CellQuoteNumberCurrent
        | ParseState::CellQuoteDecimalCurrent | ParseState::CellQuoteDecimalStart
        | ParseState::CellQuoteDecimalStartWithPointRead
        | ParseState::CellQuoteDecimalCurrentWithPointRead => ParseState::CellQuoteCurrent,
        ParseState::CellNumberCurrent | ParseState::CellNumberStart => ParseState::SkippedAssumeEndWhitespace(
            PrevState::CellNumberCurrent,
        ),
        ParseState::CellDecimalCurrent | ParseState::CellDecimalStart => ParseState::SkippedAssumeEndWhitespace(
            PrevState::CellDecimalCurrent,
        ),
        ParseState::CellDecimalStartWithPointRead
        | ParseState::CellDecimalCurrentWithPointRead => ParseState::SkippedAssumeEndWhitespace(
            PrevState::CellDecimalCurrent,
        ),
        ParseState::SkippedAssumeEndWhitespace(v) => ParseState::SkippedAssumeEndWhitespace(v),
        _ => ParseState::CarriageRet,
    }
}

/// Transition on a space.
pub open spec fn on_space(s: ParseState) -> ParseState {
    match s {
        ParseState::CellSep | ParseState::SkippedStartWhitespace => ParseState::SkippedStartWhitespace,
        ParseState::CellQuoteStart | ParseState::CellQuoteCurrent
        | ParseState::CellQuoteNumberStart | ParseState::CellQuoteDecimalStart
        | ParseState::CellQuoteNumberCurrent | ParseState::CellQuoteDecimalCurrent
        | ParseState::CellQuoteDecimalStartWithPointRead
        | ParseState::CellQuoteDecimalCurrentWithPointRead => ParseState::CellQuoteCurrent,
        ParseState::CellString | ParseState::CellCurrent => ParseState::CellCurrent,
        ParseState::CellNumberStart | ParseState::CellNumberCurrent => ParseState::SkippedAssumeEndWhitespace(
            PrevState::CellNumberCurrent,
        ),
        ParseState::CellDecimalStart | ParseState::CellDecimalCurrent => ParseState::SkippedAssumeEndWhitespace(
            PrevState::CellDecimalCurrent,
        ),
        ParseState::CellDecimalStartWithPointRead
        | ParseState::CellDecimalCurrentWithPointRead => ParseState::SkippedAssumeEndWhitespace(
            PrevState::CellDecimalCurrent,
        ),
        ParseState::SkippedAssumeEndWhitespace(v) => ParseState::SkippedAssumeEndWhitespace(v),
        _ => ParseState::SkippedStartWhitespace,
    }
}

/// The transition function: the state after reading byte `c` in state `s`.
pub open spec fn next_state(s: ParseState, c: u8) -> ParseState {
    if c == 0x22 {
        on_quote(s)
    } else if c == 0x2e {
        on_point(s)
    } else if 0x30 <= c <= 0x39 {
        on_digit(s)
    } else if c == 0x2c {
        on_separator(s)
    } else if c == 0x0a {
        on_lf(s)
    } else if c == 0x0d {
        on_cr(s)
    } else if c == 0x20 {
        on_space(s)
    } else {
        on_other(s)
    }
}

/// States inside quotes.
pub open spec fn is_quoted(s: ParseState) -> bool {
    s == ParseState::CellQuoteStart || s == ParseState::CellQuoteCurrent || s
        == ParseState::CellQuoteNumberStart || s == ParseState::CellQuoteNumberCurrent || s
        == ParseState::CellQuoteDecimalStart || s == ParseState::CellQuoteDecimalCurrent || s
        == ParseState::CellQuoteDecimalStartWithPointRead || s
        == ParseState::CellQuoteDecimalCurrentWithPointRead
}

/// Inside quotes, only a quote leaves them: every other byte, digits and
/// points included, keeps the tokenizer inside quotes.
pub proof fn lemma_only_a_quote_ends_quoting(s: ParseState, b: u8)
    requires
        is_quoted(s),
        b != 0x22,
    ensures
        is_quoted(next_state(s, b)),
{
}

/// A second point turns a decimal into a string, quoted or not, and no byte
/// inside the cell turns it back: a bare string stays one until a separator
/// or a line break, a quoted one until a quote.
pub proof fn lemma_second_point_demotes(s: ParseState, b: u8)
    ensures
        (s == ParseState::CellDecimalStartWithPointRead || s
            == ParseState::CellDecimalCurrentWithPointRead) ==> next_state(s, 0x2e)
            == ParseState::CellCurrent,
        (s == ParseState::CellQuoteDecimalStartWithPointRead || s
            == ParseState::CellQuoteDecimalCurrentWithPointRead) ==> next_state(s, 0x2e)
            == ParseState::CellQuoteCurrent,
        b != 0x2c && b != 0x0a && b != 0x0d ==> next_state(ParseState::CellCurrent, b)
            == ParseState::CellCurrent,
        b != 0x22 ==> next_state(ParseState::CellQuoteCurrent, b) == ParseState::CellQuoteCurrent,
{
}

impl PrevState {
    /// Boundary state that the remembered state `initial_state` resolves to.
    pub fn get_end_of_parse_state(initial_state: Self) -> (r: ParseState)
        ensures
            r == end_of(initial_state),
    {
        match initial_state {
            Self::CellString | Self::CellCurrent => ParseState::CellSep,
            Self::CellDecimalStart | Self::CellDecimalCurrent | Self::CellDecimalEnd => {
                ParseState::CellDecimalEnd
            },
            Self::CellDecimalCurrentWithPointRead | Self::CellDecimalEndWithPointRead
            | Self::CellDecimalStartWithPointRead => ParseState::CellDecimalEndWithPointRead,
            Self::CellNumberStart | Self::CellNumberCurrent | Self::CellNumberEnd => {
                ParseState::CellNumberEnd
            },
            Self::CellQuoteStart | Self::CellQuoteCurrent | Self::CellQuoteEnd => {
                ParseState::CellQuoteEnd
            },
            Self::CellQuoteDecimalStart | Self::CellQuoteDecimalCurrent
            | Self::CellQuoteDecimalEnd => ParseState::CellQuoteDecimalEnd,
            Self::CellQuoteDecimalStartWithPointRead | Self::CellQuoteDecimalCurrentWithPointRead
            | Self::CellQuoteDecimalEndWithPointRead => {
                ParseState::CellQuoteDecimalEndWithPointRead
            },
            Self::CellQuoteNumberStart | Self::CellQuoteNumberCurrent | Self::CellQuoteNumberEnd => {
                ParseState::CellQuoteNumberEnd
            },
            Self::CellSep => ParseState::CellSep,
            Self::EndFile => ParseState::EndFile,
            Self::NewLine => ParseState::NewLine,
            Self::SkipChar => ParseState::SkipChar,
            Self::Start => ParseState::Start,
        }
    }
}

impl ParseState {
    /// Transition on a decimal point.
    fn handle_decimal_state(initial_state: Self) -> (r: Self)
        ensures
            r == on_point(initial_state),
    {
        match initial_state {
            Self::CellNumberCurrent | Self::CellNumberStart => Self::CellDecimalCurrentWithPointRead,
            Self::CellQuoteStart => Self::CellQuoteDecimalStartWithPointRead,
            Self::CellQuoteCurrent => Self::CellQuoteCurrent,
            // A point inside a quoted number makes it a quoted decimal.
            Self::CellQuoteNumberStart | Self::CellQuoteNumberCurrent | Self::CellQuoteDecimalStart
            | Self::CellQuoteDecimalCurrent => Self::CellQuoteDecimalCurrentWithPointRead,
            // A second point inside a quoted decimal: a quoted string.
            Self::CellQuoteDecimalStartWithPointRead | Self::CellQuoteDecimalCurrentWithPointRead => {
                Self::CellQuoteCurrent
            },
            // A second point: a string.
            Self::CellString | Self::CellDecimalStartWithPointRead
            | Self::CellDecimalCurrentWithPointRead | Self::CellCurrent => Self::CellCurrent,
            Self::SkippedAssumeEndWhitespace(_) => Self::CellCurrent,
            _ => Self::CellDecimalStartWithPointRead,
        }
    }

    /// Transition on a byte of no special class.
    fn handle_default(initial_state: Self) -> (r: Self)
        ensures
            r == on_other(initial_state),
    {
        match initial_state {
            // Inside quotes: keep reading a quoted string.
            Self::CellQuoteStart | Self::CellQuoteCurrent | Self::CellQuoteNumberStart
            | Self::CellQuoteNumberCurrent | Self::CellQuoteDecimalStart
            | Self::CellQuoteDecimalCurrent | Self::CellQuoteDecimalStartWithPointRead
            | Self::CellQuoteDecimalCurrentWithPointRead => Self::CellQuoteCurrent,
            // Any number read so far becomes an unquoted string.
            Self::CellString | Self::CellCurrent | Self::CellNumberStart | Self::CellDecimalStart
            | Self::CellNumberCurrent | Self::CellDecimalCurrent
            | Self::CellDecimalStartWithPointRead | Self::CellDecimalCurrentWithPointRead => {
                Self::CellCurrent
            },
            Self::SkippedAssumeEndWhitespace(_) => Self::CellCurrent,
            _ => Self::CellString,
        }
    }

    /// Transition on the separator.
    fn handle_separator(initial_state: Self) -> (r: Self)
        ensures
            r == on_separator(initial_state),
    {
        match initial_state {
            // Inside quotes the separator is text.
            Self::CellQuoteCurrent | Self::CellQuoteStart | Self::CellQuoteNumberStart
            | Self::CellQuoteNumberCurrent | Self::CellQuoteDecimalCurrent
            | Self::CellQuoteDecimalStart | Self::CellQuoteDecimalStartWithPointRead
            | Self::CellQuoteDecimalCurrentWithPointRead => Self::CellQuoteCurrent,
            Self::CellNumberCurrent | Self::CellNumberStart => Self::CellNumberEnd,
            Self::CellDecimalCurrent | Self::CellDecimalStart | Self::CellDecimalStartWithPointRead
            | Self::CellDecimalCurrentWithPointRead => Self::CellDecimalEnd,
            Self::SkippedAssumeEndWhitespace(v) => PrevState::get_end_of_parse_state(v),
            _ => Self::CellSep,
        }
    }

    /// Transition on a digit.
    fn handle_number(initial_state: Self) -> (r: Self)
        ensures
            r == on_digit(initial_state),
    {
        match initial_state {
            Self::CellQuoteDecimalStartWithPointRead | Self::CellQuoteDecimalCurrentWithPointRead => {
                Self::CellQuoteDecimalCurrentWithPointRead
            },
            Self::CellQuoteStart | Self::CellQuoteNumberStart | Self::CellQuoteNumberCurrent => {
                Self::CellQuoteNumberCurrent
            },
            Self::CellQuoteDecimalStart | Self::CellQuoteDecimalCurrent => {
                Self::CellQuoteDecimalCurrent
            },
            Self::CellQuoteCurrent => Self::CellQuoteCurrent,
            Self::CellNumberCurrent | Self::CellNumberStart => Self::CellNumberCurrent,
            Self::CellDecimalStartWithPointRead | Self::CellDecimalCurrentWithPointRead => {
                Self::CellDecimalCurrentWithPointRead
            },
            Self::CellDecimalCurrent | Self::CellDecimalStart => Self::CellDecimalCurrent,
            Self::CellString | Self::CellCurrent => Self::CellCurrent,
            Self::SkippedAssumeEndWhitespace(_) => Self::CellCurrent,
            _ => Self::CellNumberStart,
        }
    }

    /// Transition on a line feed.
    fn handle_lf(initial_state: Self) -> (r: Self)
        ensures
            r == on_lf(initial_state),
    {
        match initial_state {
            // A line feed inside quotes is text.
            Self::CellQuoteCurrent | Self::CellQuoteStart | Self::CellQuoteNumberStart
            | Self::CellQuoteNumberCurrent | Self::CellQuoteDecimalCurrent
            | Self::CellQuoteDecimalStart | Self::CellQuoteDecimalStartWithPointRead
            | Self::CellQuoteDecimalCurrentWithPointRead => Self::CellQuoteCurrent,
            Self::CellNumberCurrent | Self::CellNumberStart => Self::CellNumberEnd,
            Self::CellDecimalCurrent | Self::CellDecimalStart | Self::CellDecimalStartWithPointRead
            | Self::CellDecimalCurrentWithPointRead => Self::CellDecimalEnd,
            Self::SkippedAssumeEndWhitespace(v) => PrevState::get_end_of_parse_state(v),
            _ => Self::NewLine,
        }
    }

    /// Transition on a double quote.
    fn handle_quotes(initial_state: Self) -> (r: Self)
        ensures
            r == on_quote(initial_state),
    {
        match initial_state {
            // A quote inside quotes closes them.
            Self::CellQuoteStart | Self::CellQuoteCurrent => Self::CellQuoteEnd,
            // A quote inside a bare string is part of it.
            Self::CellString | Self::CellCurrent => Self::CellCurrent,
            Self::CellQuoteNumberStart | Self::CellQuoteNumberCurrent => Self::CellQuoteNumberEnd,
            Self::CellQuoteDecimalStart | Self::CellQuoteDecimalCurrent => Self::CellQuoteDecimalEnd,
            Self::CellQuoteDecimalStartWithPointRead | Self::CellQuoteDecimalCurrentWithPointRead => {
                Self::CellQuoteDecimalEndWithPointRead
            },
            Self::SkippedAssumeEndWhitespace(v) => PrevState::get_end_of_parse_state(v),
            _ => Self::CellQuoteStart,
        }
    }

    /// Transition on a carriage return.
    fn handle_cr(initial_state: Self) -> (r: Self)
        ensures
            r == on_cr(initial_state),
    {
        match initial_state {
            // A carriage return inside quotes is text.
            Self::CellQuoteCurrent | Self::CellQuoteStart | Self::CellQuoteNumberStart
            | Self::CellQuoteNumberCurrent | Self::CellQuoteDecimalCurrent
            | Self::CellQuoteDecimalStart | Self::CellQuoteDecimalStartWithPointRead
            | Self::CellQuoteDecimalCurrentWithPointRead => Self::CellQuoteCurrent,
            // After a number the cell may have ended: remember the number.
            Self::CellNumberCurrent | Self::CellNumberStart => {
                Self::SkippedAssumeEndWhitespace(PrevState::CellNumberCurrent)
            },
            Self::CellDecimalCurrent | Self::CellDecimalStart => {
                Self::SkippedAssumeEndWhitespace(PrevState::CellDecimalCurrent)
            },
            Self::CellDecimalStartWithPointRead | Self::CellDecimalCurrentWithPointRead => {
                Self::SkippedAssumeEndWhitespace(PrevState::CellDecimalCurrent)
            },
            Self::SkippedAssumeEndWhitespace(v) => Self::SkippedAssumeEndWhitespace(v),
            _ => Self::CarriageRet,
        }
    }

    /// Transition on a space.
    fn handle_white_space(initial_state: Self) -> (r: Self)
        ensures
            r == on_space(initial_state),
    {
        match initial_state {
            // Right after a separator: leading whitespace of the cell.
            Self::CellSep | Self::SkippedStartWhitespace => Self::SkippedStartWhitespace,
            // Whitespace inside quotes makes a quoted string.
            Self::CellQuoteStart | Self::CellQuoteCurrent | Self::CellQuoteNumberStart
            | Self::CellQuoteDecimalStart | Self::CellQuoteNumberCurrent
            | Self::CellQuoteDecimalCurrent | Self::CellQuoteDecimalStartWithPointRead
            | Self::CellQuoteDecimalCurrentWithPointRead => Self::CellQuoteCurrent,
            // Whitespace inside a bare string is part of it.
            Self::CellString | Self::CellCurrent => Self::CellCurrent,
            // After a number the cell may have ended: remember the number.
            Self::CellNumberStart | Self::CellNumberCurrent => {
                Self::SkippedAssumeEndWhitespace(PrevState::CellNumberCurrent)
            },
            Self::CellDecimalStart | Self::CellDecimalCurrent => {
                Self::SkippedAssumeEndWhitespace(PrevState::CellDecimalCurrent)
            },
            Self::CellDecimalStartWithPointRead | Self::CellDecimalCurrentWithPointRead => {
                Self::SkippedAssumeEndWhitespace(PrevState::CellDecimalCurrent)
            },
            Self::SkippedAssumeEndWhitespace(v) => Self::SkippedAssumeEndWhitespace(v),
            _ => Self::SkippedStartWhitespace,
        }
    }

    /// The state after reading byte `c` in state `initial_state`.
    pub fn get_scan_state_from_data(initial_state: Self, c: u8) -> (r: Self)
        ensures
            r == next_state(initial_state, c),
    {
        match c {
            // '"'
            0x22 => Self::handle_quotes(initial_state),
            // '.'
            0x2e => Self::handle_decimal_state(initial_state),
            // '0'..='9'
            0x30..=0x39 => Self::handle_number(initial_state),
            // ','
            0x2c => Self::handle_separator(initial_state),
            // '\n'
            0x0a => Self::handle_lf(initial_state),
            // '\r'
            0x0d => Self::handle_cr(initial_state),
            // ' '
            0x20 => Self::handle_white_space(initial_state),
            _ => Self::handle_default(initial_state),
        }
    }
}

} // verus!
