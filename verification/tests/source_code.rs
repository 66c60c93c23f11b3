use calculator::source_code::{Location, SourceCode};

#[test]
fn creates_source_code() {
    let code = "test test".to_string();
    let sc = SourceCode::new(code.clone());

    assert_eq!(&code, sc.code());
}

#[test]
fn calculates_lines_from_source_code() {
    let code = "line 1\nline 2\n\nline 3".to_string();
    let sc = SourceCode::new(code);

    // since there are 4 lines, there should be 3 line breaks
    assert_eq!(sc.line_breaks().len(), 3);
}

#[test]
fn returns_lines_from_source_code() {
    let code = "line 1\nline 2\n\nline 3".to_string();
    let sc = SourceCode::new(code);

    assert_eq!(sc.get_line(0), Some("line 1".to_string()));
    assert_eq!(sc.get_line(1), Some("line 2".to_string()));
    assert_eq!(sc.get_line(3), Some("line 3".to_string()));
}

#[test]
fn returns_code_ranges() {
    let code = "line 1\nline 2\n\nline 3".to_string();
    let sc = SourceCode::new(code);

    assert_eq!(sc.get_code_range(3, 8), Some("e 1\nl".to_string()));
}

#[test]
fn locates_positions() {
    let sc = SourceCode::new("ab\ncd\n\nef".to_string());

    assert_eq!(sc.to_location(0), Some(Location::new(0, 0, 0)));
    assert_eq!(sc.to_location(2), Some(Location::new(2, 0, 2)));
    assert_eq!(sc.to_location(3), Some(Location::new(3, 1, 0)));
    assert_eq!(sc.to_location(5), Some(Location::new(5, 1, 2)));
    assert_eq!(sc.to_location(6), Some(Location::new(6, 2, 0)));
    assert_eq!(sc.to_location(7), Some(Location::new(7, 3, 0)));
    assert_eq!(sc.to_location(9), Some(Location::new(9, 3, 2)));
    assert_eq!(sc.to_location(10), None);
}

#[test]
fn positions_count_characters() {
    let sc = SourceCode::new("é試\nü".to_string());
    assert_eq!(sc.chars().len(), 4);
    assert_eq!(sc.to_location(3), Some(Location::new(3, 1, 0)));
    assert_eq!(sc.to_location(4), Some(Location::new(4, 1, 1)));
    assert_eq!(sc.to_location(5), None);
    assert_eq!(sc.get_code_range(1, 4), Some("試\nü".to_string()));
    assert_eq!(sc.get_line(1), Some("ü".to_string()));
}

#[test]
fn lines_that_do_not_exist() {
    let sc = SourceCode::new("a\n b \n".to_string());
    assert_eq!(sc.line_breaks(), &vec![2, 6]);
    assert_eq!(sc.get_line(1), Some("b".to_string()));
    assert_eq!(sc.get_line(2), Some("".to_string()));
    assert_eq!(sc.get_line(3), None);
    assert_eq!(SourceCode::new("".to_string()).get_line(0), Some("".to_string()));
    assert_eq!(SourceCode::new("".to_string()).get_line(1), None);
    assert_eq!(SourceCode::new("  \t ".to_string()).get_line(0), Some("".to_string()));
}

#[test]
fn ranges_out_of_order_or_out_of_the_text() {
    let sc = SourceCode::new("abc".to_string());
    assert_eq!(sc.get_code_range(0, 3), Some("abc".to_string()));
    assert_eq!(sc.get_code_range(3, 3), Some("".to_string()));
    assert_eq!(sc.get_code_range(2, 1), None);
    assert_eq!(sc.get_code_range(0, 4), None);
    assert_eq!(sc.get_code_range(4, 4), None);
}

#[test]
fn a_location_renders_as_line_and_offset() {
    assert_eq!(Location::new(17, 3, 12).to_string(), "3:12");
    assert_eq!(Location::new(0, 0, 0).to_string(), "0:0");
    assert!(Location::new(1, 0, 1) < Location::new(2, 0, 2));
}
