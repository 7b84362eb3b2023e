use anpass::{
    read_count, read_header, read_i32, read_i32_fields, read_usize, split_fields, Basis,
    LineKind, LoadError, Scanner, Section,
};

fn chars(s: &str) -> Vec<char> {
    s.chars().collect()
}

fn text(v: &[char]) -> String {
    v.iter().collect()
}

#[test]
fn fields_split_on_white_space() {
    let f = split_fields(&chars("  -0.005  1.0\t2 \u{3000}x "));
    let f: Vec<String> = f.iter().map(|t| text(t)).collect();
    assert_eq!(f, vec!["-0.005", "1.0", "2", "x"]);
    assert!(split_fields(&chars("   ")).is_empty());
}

#[test]
fn integers() {
    assert_eq!(read_i32(&chars("-12")), Some(-12));
    assert_eq!(read_i32(&chars("+7")), Some(7));
    assert_eq!(read_i32(&chars("2147483647")), Some(i32::MAX));
    assert_eq!(read_i32(&chars("-2147483648")), Some(i32::MIN));
    assert_eq!(read_i32(&chars("2147483648")), None);
    assert_eq!(read_i32(&chars("1.5")), None);
    assert_eq!(read_i32(&chars("-")), None);
    assert_eq!(read_usize(&chars("+35")), Some(35));
    assert_eq!(read_usize(&chars("-3")), None);
    assert_eq!(read_usize(&chars("99999999999999999999999")), None);
    assert_eq!(read_i32_fields(&chars("  1 0 x 2 -3")), vec![1, 0, 2, -3]);
    assert_eq!(read_count(&chars("  35 ")), Some(35));
    assert_eq!(read_count(&chars("35 2")), None);
    assert_eq!(read_count(&chars("")), None);
}

#[test]
fn header_lines() {
    assert_eq!(read_header(&chars("(3F12.8,f20.12)")), Ok(Some(3)));
    assert_eq!(read_header(&chars("  (12f12.8,F20.12)  ")), Ok(Some(12)));
    assert_eq!(read_header(&chars("(3F12.8,f20.12) x")), Ok(None));
    assert_eq!(read_header(&chars("(F12.8,f20.12)")), Ok(None));
    assert_eq!(read_header(&chars("(3F12.8 f20.12)")), Ok(None));
    assert_eq!(read_header(&chars("(3F,f20.12)")), Ok(None));
    assert_eq!(
        read_header(&chars("(99999999999999999999999F12.8,f20.12)")),
        Err(LoadError::HeaderTooLarge)
    );
}

#[test]
fn scan_whole_input() {
    let input = "comment line\n\
        (2F12.8,f20.12)\n\
        -0.005 0.0 1.5\n\
        0.005 0.0 1.6\n\
        UNKNOWNS\n\
        3\n\
        FUNCTION\n\
        0 1 2\n\
        2 1 0\n\
        ! STATIONARY POINT comment\n\
        STATIONARY POINT\n\
        0.1 0.2 -3.0\n\
        trailing";
    let mut s = Scanner::new();
    let kinds: Vec<LineKind> = input.lines().map(|l| s.scan(&chars(l)).unwrap()).collect();
    assert_eq!(
        kinds,
        vec![
            LineKind::Ignored,
            LineKind::Header,
            LineKind::DisplacementRow,
            LineKind::DisplacementRow,
            LineKind::UnknownsMarker,
            LineKind::UnknownCount,
            LineKind::ExponentRow,
            LineKind::ExponentRow,
            LineKind::ExponentRow,
            LineKind::ExponentRow,
            LineKind::StationaryMarker,
            LineKind::StationaryRow,
            LineKind::Ignored,
        ]
    );
    assert_eq!(s.fields, 2);
    assert_eq!(s.nunk, 3);
    assert_eq!(s.exponents, vec![0, 1, 2, 2, 1, 0]);
    assert_eq!(s.section, Section::Idle);
    let b = Basis::from_row_major(&s.exponents, s.nunk).unwrap();
    assert_eq!(b.nvbl(), 2);
    assert_eq!(b.column_of(0), vec![0, 2]);
}

#[test]
fn bad_unknown_count() {
    let mut s = Scanner::new();
    assert_eq!(s.scan(&chars("UNKNOWNS")), Ok(LineKind::UnknownsMarker));
    assert_eq!(s.scan(&chars("three")), Err(LoadError::BadCount));
}

#[test]
fn written_exponents_read_back() {
    let row = vec![0, 1, 12, 4, 9999, 3];
    let line = anpass::exponent_row(&row);
    assert_eq!(text(&line), "    0    1   12    4 9999    3");
    assert_eq!(read_i32_fields(&line), vec![0, 1, 12, 4, 9999, 3]);
    assert_eq!(text(&anpass::exponent_row(&vec![])), "");
}

#[test]
fn written_count_reads_back() {
    assert_eq!(text(&anpass::count_line(35)), "  35");
    assert_eq!(text(&anpass::count_line(123456)), "123456");
    assert_eq!(read_count(&anpass::count_line(35)), Some(35));
    assert_eq!(read_count(&anpass::count_line(123456)), Some(123456));
}
