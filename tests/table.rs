use csv_frame::cell::{Cell, CellType};
use csv_frame::dframe::DataFrame;
use csv_frame::parser::{CsvParser, ParseError};

fn parse(text: &str, shards: usize) -> DataFrame {
    CsvParser::parse_buffer(text.as_bytes(), shards).unwrap()
}

fn rows(df: &DataFrame) -> Vec<Vec<Cell>> {
    let mut it = df.iter();
    let mut out = Vec::new();
    while let Some(row) = it.next() {
        out.push(row.to_vec());
    }
    out
}

fn s(text: &str) -> Cell {
    Cell::String(text.to_string())
}

fn d(text: &str) -> Cell {
    Cell::Decimal(text.to_string())
}

const SAMPLE: &str = "Year,Name,Score\n2020,Alice,3.5\n2021,Bob,4\n2022,\"Smith, John\",5.0\n";

#[test]
fn end_to_end_scenario() {
    let df = parse(SAMPLE, 1);
    assert_eq!(df.header(), &["Year".to_string(), "Name".to_string(), "Score".to_string()]);
    assert_eq!(df.dtypes(), &[CellType::I64, CellType::String, CellType::F64]);
    assert_eq!(df.len(), 3);
    assert_eq!(df.hlen(), 3);
    let r = rows(&df);
    assert_eq!(r[0], vec![Cell::Number(2020), s("Alice"), d("3.5")]);
    assert_eq!(r[1], vec![Cell::Number(2021), s("Bob"), Cell::Number(4)]);
    assert_eq!(r[2], vec![Cell::Number(2022), s("Smith, John"), d("5.0")]);
}

#[test]
fn same_table_for_every_shard_count() {
    let one = parse(SAMPLE, 1);
    for n in 1..=3 {
        let many = parse(SAMPLE, n);
        assert_eq!(rows(&many), rows(&one));
        assert_eq!(many.dtypes(), one.dtypes());
        assert_eq!(many.header(), one.header());
    }
}

#[test]
fn same_table_with_crlf_and_more_shards_than_rows() {
    let text = "a,b\r\n1,x\r\n2,y\r\n3,z\r\n";
    let one = parse(text, 1);
    assert_eq!(rows(&one)[2], vec![Cell::Number(3), s("z")]);
    for n in 2..=6 {
        assert_eq!(rows(&parse(text, n)), rows(&one));
        assert_eq!(parse(text, n).dtypes(), one.dtypes());
    }
}

#[test]
fn quoted_separator_stays_in_the_cell() {
    let df = parse("h1,h2\n\"a,b\",2", 1);
    assert_eq!(rows(&df), vec![vec![s("a,b"), Cell::Number(2)]]);
}

#[test]
fn decimal_edge_cases() {
    let df = parse("x\n3.\n3.5\n3.5.6\n", 1);
    assert_eq!(rows(&df), vec![vec![d("3.")], vec![d("3.5")], vec![s("3.5.6")]]);
    assert_eq!(df.dtypes(), &[CellType::String]);
    let only_decimals = parse("x\n3.\n3.5\n", 1);
    assert_eq!(only_decimals.dtypes(), &[CellType::F64]);
}

#[test]
fn quoted_numbers_keep_their_type() {
    let df = parse("a,b\n\"12\",\"0.5\"\n", 1);
    assert_eq!(rows(&df), vec![vec![Cell::Number(12), d("0.5")]]);
    assert_eq!(df.dtypes(), &[CellType::I64, CellType::F64]);
}

#[test]
fn quoted_text_ends_only_at_a_quote() {
    let df = parse("a,b\n\"1,2\",\"1.5x\"\n", 1);
    assert_eq!(rows(&df), vec![vec![s("1,2"), s("1.5x")]]);
}

#[test]
fn whitespace_after_a_number_is_trimmed() {
    let df = parse("a,b,c\n 7 ,2.5 ,x y\n", 1);
    assert_eq!(rows(&df), vec![vec![Cell::Number(7), d("2.5"), s("x y")]]);
}

#[test]
fn column_inference() {
    assert_eq!(parse("a\n1\n2\n3\n", 1).dtypes(), &[CellType::I64]);
    assert_eq!(parse("a\n1\n2.5\n3\n", 1).dtypes(), &[CellType::F64]);
    assert_eq!(parse("a\n1\nx\n2.5\n", 1).dtypes(), &[CellType::String]);
    assert_eq!(parse("a,b\n,1\n,2\n", 1).dtypes(), &[CellType::Null, CellType::I64]);
}

#[test]
fn empty_fields_are_null() {
    let df = parse("a,b,c\n,\"\",\n", 1);
    assert_eq!(rows(&df), vec![vec![Cell::Null, Cell::Null, Cell::Null]]);
}

#[test]
fn integer_overflow_is_malformed() {
    let r = CsvParser::parse_buffer(b"a\n99999999999999999999\n", 1);
    assert_eq!(r.err(), Some(ParseError::MalformedNumber));
    let fits = parse("a\n9223372036854775807\n", 1);
    assert_eq!(rows(&fits), vec![vec![Cell::Number(i64::MAX)]]);
    let r = CsvParser::parse_buffer(b"a\n9223372036854775808\n", 2);
    assert_eq!(r.err(), Some(ParseError::MalformedNumber));
}

#[test]
fn no_header_means_no_columns() {
    assert_eq!(CsvParser::parse_buffer(b"", 1).err(), Some(ParseError::NoColumns));
    assert_eq!(CsvParser::parse_buffer(b" \n\n", 2).err(), Some(ParseError::NoColumns));
}

#[test]
fn header_only_gives_no_rows() {
    let df = parse("a,b\n", 2);
    assert_eq!(df.len(), 0);
    assert_eq!(df.dtypes(), &[CellType::Null, CellType::Null]);
}

#[test]
fn invalid_utf8_is_replaced() {
    let df = CsvParser::parse_buffer(b"a\nx\xffy\n", 1).unwrap();
    assert_eq!(rows(&df), vec![vec![s("x\u{fffd}y")]]);
    let df = parse("a\nAlice\n", 1);
    assert_eq!(rows(&df), vec![vec![s("Alice")]]);
}

#[test]
fn column_iteration_by_name() {
    let df = parse(SAMPLE, 2);
    let mut col = df.iter_col("Name").unwrap();
    assert_eq!(col.size_hint(), (3, Some(3)));
    assert_eq!(col.next(), Some(&s("Alice")));
    assert_eq!(col.nth(1), Some(&s("Smith, John")));
    assert_eq!(col.next(), Some(&s("Bob")));
    assert_eq!(col.next(), Some(&s("Smith, John")));
    assert_eq!(col.next(), None);
    assert!(df.iter_col("Missing").is_none());
}

#[test]
fn row_random_access() {
    let df = parse(SAMPLE, 1);
    let mut it = df.iter();
    assert_eq!(it.size_hint(), (3, Some(3)));
    assert_eq!(it.nth(2).unwrap()[0], Cell::Number(2022));
    assert!(it.nth(3).is_none());
    it.next();
    assert_eq!(it.size_hint(), (2, Some(2)));
}

#[test]
fn table_from_parts_checks_shape() {
    let h = vec!["a".to_string(), "b".to_string()];
    let t = vec![CellType::Null, CellType::Null];
    assert!(DataFrame::from_parts(vec![Cell::Null; 3], h.clone(), t.clone()).is_none());
    assert!(DataFrame::from_parts(vec![Cell::Null; 4], h.clone(), vec![CellType::Null]).is_none());
    let df = DataFrame::from_parts(vec![Cell::Null; 4], h, t).unwrap();
    assert_eq!(df.len(), 2);
}

#[test]
fn a_decimal_without_digits_is_malformed() {
    assert_eq!(
        CsvParser::parse_buffer(b"a\n.\n", 1).err(),
        Some(ParseError::MalformedNumber)
    );
    assert_eq!(
        CsvParser::parse_buffer(b"a,b\n1,\".\"\n", 2).err(),
        Some(ParseError::MalformedNumber)
    );
}

#[test]
fn a_second_point_keeps_the_cell_a_string() {
    let df = parse("a,b\n3.5.6\"7\",1\n", 1);
    assert_eq!(rows(&df), vec![vec![s("3.5.6\"7\""), Cell::Number(1)]]);
}

#[test]
fn crlf_rows_keep_their_types() {
    let df = parse("a,b\r\n12,3.5\r\n7 ,2. \r\n", 1);
    assert_eq!(rows(&df), vec![vec![Cell::Number(12), d("3.5")], vec![Cell::Number(7), d("2.")]]);
    assert_eq!(df.dtypes(), &[CellType::I64, CellType::F64]);
}
