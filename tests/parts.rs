use csv_frame::cell::{Cell, CellType};
use csv_frame::iter::split_when::ChunkWhen;
use csv_frame::parse_state::{ParseState, PrevState};
use csv_frame::parser::CsvParser;
use csv_frame::scan::parse_int;

const ALL: [CellType; 4] = [CellType::Null, CellType::I64, CellType::F64, CellType::String];

fn rank(t: CellType) -> usize {
    match t {
        CellType::Null => 0,
        CellType::I64 => 1,
        CellType::F64 => 2,
        CellType::String => 3,
    }
}

#[test]
fn merge_is_commutative_and_associative() {
    for a in ALL {
        for b in ALL {
            assert_eq!(CsvParser::agg_type(a, b), CsvParser::agg_type(b, a));
            for c in ALL {
                assert_eq!(
                    CsvParser::agg_type(CsvParser::agg_type(a, b), c),
                    CsvParser::agg_type(a, CsvParser::agg_type(b, c))
                );
            }
        }
    }
}

#[test]
fn merge_is_the_lattice_maximum() {
    for a in ALL {
        assert_eq!(CsvParser::agg_type(a, a), a);
        assert_eq!(CsvParser::agg_type(CellType::Null, a), a);
        for b in ALL {
            let m = CsvParser::agg_type(a, b);
            assert_eq!(rank(m), rank(a).max(rank(b)));
        }
    }
    assert_eq!(CsvParser::aggregate_from_null(CellType::F64), CellType::F64);
    assert_eq!(CsvParser::aggregate_from_f64(CellType::I64), CellType::F64);
    assert_eq!(CsvParser::aggregate_from_i64(CellType::F64), CellType::F64);
    assert_eq!(CsvParser::aggregate_from_i64(CellType::Null), CellType::I64);
    assert_eq!(CellType::Null.infer_from_i64(), CellType::I64);
    assert_eq!(CellType::String.infer_from_i64(), CellType::String);
}

fn run(bytes: &[u8]) -> ParseState {
    let mut s = ParseState::Start;
    for b in bytes {
        s = ParseState::get_scan_state_from_data(s, *b);
    }
    s
}

#[test]
fn state_machine_boundaries() {
    assert_eq!(run(b"12,"), ParseState::CellNumberEnd);
    assert_eq!(run(b"3.5,"), ParseState::CellDecimalEnd);
    assert_eq!(run(b"3.5.6"), ParseState::CellCurrent);
    assert_eq!(run(b"\"a,b\""), ParseState::CellQuoteEnd);
    assert_eq!(run(b"\"12\""), ParseState::CellQuoteNumberEnd);
    assert_eq!(run(b"\"1.5\""), ParseState::CellQuoteDecimalEndWithPointRead);
    assert_eq!(run(b"\"1\n"), ParseState::CellQuoteCurrent);
    assert_eq!(run(b"\"1,2"), ParseState::CellQuoteCurrent);
    assert_eq!(run(b"\"1.5a"), ParseState::CellQuoteCurrent);
    assert_eq!(run(b"\"a\n"), ParseState::CellQuoteCurrent);
}

#[test]
fn suspended_number_resolves_like_the_number() {
    assert_eq!(
        run(b"12 "),
        ParseState::SkippedAssumeEndWhitespace(PrevState::CellNumberCurrent)
    );
    assert_eq!(run(b"12 ,"), run(b"12,"));
    assert_eq!(run(b"12 \n"), run(b"12\n"));
    assert_eq!(run(b"12 x"), ParseState::CellCurrent);
    assert_eq!(run(b"1.5\r"), ParseState::SkippedAssumeEndWhitespace(PrevState::CellDecimalCurrent));
    assert_eq!(run(b"1.5\r\n"), run(b"1.5\n"));
    assert_eq!(run(b"3. ,"), run(b"3.,"));
    assert_eq!(run(b"3.  \n"), ParseState::CellDecimalEnd);
    assert_eq!(run(b"12\r"), ParseState::SkippedAssumeEndWhitespace(PrevState::CellNumberCurrent));
    assert_eq!(run(b"12\r\n"), ParseState::CellNumberEnd);
    assert_eq!(run(b"3.5.6\"7\""), ParseState::CellCurrent);
    assert_eq!(
        PrevState::get_end_of_parse_state(PrevState::CellNumberCurrent),
        ParseState::CellNumberEnd
    );
}

#[test]
fn header_scan() {
    let mut p = CsvParser::new(b"  \"x,y\",b,c\r\n1,2,3\n");
    let (names, offset) = p.scan_header();
    assert_eq!(names, vec!["x,y".to_string(), "b".to_string(), "c".to_string()]);
    assert_eq!(offset, 13);
    let mut p = CsvParser::new(b"\"a,b\",c\n1,2\n");
    assert_eq!(p.scan_header(), (vec!["a,b".to_string(), "c".to_string()], 8));
    let mut p = CsvParser::new(b"Year,Name,Score\n2020,Alice,3.5\n");
    assert_eq!(p.scan_header().1, 16);
    let mut p = CsvParser::new(b"\"open");
    assert_eq!(p.scan_header(), (vec!["open".to_string()], 5));
    let mut p = CsvParser::new(b"a");
    assert_eq!(p.get_curr_byte(), Some(b'a'));
    assert_eq!(p.scan_header_string(), "a".to_string());
    assert_eq!(p.get_curr_byte(), None);
    let mut p = CsvParser::new(b"\"q\"r");
    assert_eq!(p.scan_header_quote(), "q".to_string());
}

#[test]
fn partition_covers_the_buffer() {
    let data = b"1,a\n2,b\n3,c\n4,d\n5,e";
    for n in 1..=7 {
        let shards = CsvParser::get_total_lines_in_a_file(data, n);
        assert_eq!(shards.len(), n);
        assert_eq!(shards[0].1, 0);
        assert_eq!(shards[n - 1].2, data.len());
        for k in 0..n - 1 {
            assert_eq!(shards[k].2, shards[k + 1].1);
            let e = shards[k].2;
            assert!(e == 0 || e == data.len() || data[e - 1] == b'\n');
        }
        let total: usize = shards.iter().map(|s| s.0).sum();
        assert_eq!(total, 5);
        let line_feeds = data.iter().filter(|b| **b == b'\n').count();
        assert_eq!(total, line_feeds + 1);
    }
    let shards = CsvParser::get_total_lines_in_a_file(data, 2);
    assert_eq!(shards, vec![(3, 0, 12), (2, 12, 19)]);
}

#[test]
fn shard_bounds_and_row_counts() {
    assert_eq!(CsvParser::shard_bounds(b"ab\ncd\nef", 3), vec![0, 3, 6, 8]);
    assert_eq!(CsvParser::shard_bounds(b"abcdef\nx", 4), vec![0, 7, 8, 8, 8]);
    assert_eq!(CsvParser::count_rows(b""), 0);
    assert_eq!(CsvParser::count_rows(b"a"), 1);
    assert_eq!(CsvParser::count_rows(b"a\n"), 1);
    assert_eq!(CsvParser::count_rows(b"a\nb"), 2);
}

#[test]
fn worker_fills_its_region_and_types() {
    let mut cells = vec![Cell::Null; 4];
    let mut types = vec![CellType::Null; 2];
    let r = CsvParser::new(b"1,x\n2.5,7").parse_content_on_buffer(&mut cells, &mut types);
    assert!(r.is_ok());
    assert_eq!(
        cells,
        vec![
            Cell::Number(1),
            Cell::String("x".to_string()),
            Cell::Decimal("2.5".to_string()),
            Cell::Number(7)
        ]
    );
    assert_eq!(types, vec![CellType::F64, CellType::String]);
    let folded = CsvParser::fold_types(&vec![types, vec![CellType::I64, CellType::Null]], 2);
    assert_eq!(folded, vec![CellType::F64, CellType::String]);
}

#[test]
fn data_rows_skip_the_header_line() {
    let bytes = b"a,b\n 1,2 \n";
    let mut p = CsvParser::new(bytes);
    assert_eq!(p.scan_header().1, 4);
    assert_eq!(CsvParser::data_rows(bytes, 4), b"1,2");
    assert_eq!(CsvParser::data_rows(b"a,b", 3), b"");
}

#[test]
fn chunk_when_cuts_before_each_match() {
    let items = [1, 2, 0, 3, 0, 4];
    let mut c = ChunkWhen::new(&items, |x: &i32| *x == 0);
    assert_eq!(c.next(), Some(&items[0..2]));
    assert_eq!(c.next(), Some(&items[3..4]));
    assert_eq!(c.next(), None);
    assert_eq!(c.next(), None);
    assert_eq!(c.size_hint(), (0, None));
}

#[test]
fn split_slices_gives_disjoint_views_in_order() {
    let mut cells: Vec<u32> = (0..10).collect();
    let shards = vec![(2, 0, 4), (0, 4, 4), (3, 4, 9)];
    let mut views = CsvParser::split_slices(&mut cells, &shards, 2);
    assert_eq!(views.len(), 3);
    assert_eq!(views[0].to_vec(), vec![0, 1, 2, 3]);
    assert!(views[1].is_empty());
    assert_eq!(views[2].to_vec(), vec![4, 5, 6, 7, 8, 9]);
    views[2][0] = 40;
    views[0][3] = 30;
    assert_eq!(cells, vec![0, 1, 2, 30, 40, 5, 6, 7, 8, 9]);
}

#[test]
fn split_slices_may_leave_a_tail() {
    let mut cells: Vec<u32> = (0..7).collect();
    let shards = vec![(1, 0, 2), (2, 2, 5)];
    let views = CsvParser::split_slices(&mut cells, &shards, 2);
    assert_eq!(views[0].to_vec(), vec![0, 1]);
    assert_eq!(views[1].to_vec(), vec![2, 3, 4, 5]);
}

#[test]
fn integers_take_an_optional_sign() {
    assert_eq!(parse_int(b"+5"), Some(5));
    assert_eq!(parse_int(b"-5"), Some(-5));
    assert_eq!(parse_int(b"42"), Some(42));
    assert_eq!(parse_int(b"-9223372036854775808"), Some(i64::MIN));
    assert_eq!(parse_int(b"9223372036854775807"), Some(i64::MAX));
    assert_eq!(parse_int(b"9223372036854775808"), None);
    assert_eq!(parse_int(b""), None);
    assert_eq!(parse_int(b"-"), None);
    assert_eq!(parse_int(b"1a"), None);
}
