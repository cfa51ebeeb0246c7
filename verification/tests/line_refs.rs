use cbacon::line_ref::{
    check_line_ref, line_at, parse_line_ref, parse_usize, LineRefError, LinesOfConcern, NumberError,
};
use std::num::IntErrorKind;

#[test]
fn parse_line_ref_splits_path_and_line() {
    let lr = parse_line_ref("/path/to/file.rs:23:17").unwrap();
    assert_eq!(lr.path, "/path/to/file.rs");
    assert_eq!(lr.line, 23);
}

#[test]
fn parse_line_ref_keeps_windows_drive() {
    let lr = parse_line_ref("C:\\src\\main.rs:4:9").unwrap();
    assert_eq!(lr.path, "C:\\src\\main.rs");
    assert_eq!(lr.line, 4);
}

#[test]
fn parse_line_ref_errors() {
    assert_eq!(parse_line_ref("no colon here").unwrap_err(), LineRefError::NoColon);
    assert_eq!(parse_line_ref("file.rs:12").unwrap_err(), LineRefError::NoSecondColon);
    assert_eq!(
        parse_line_ref("file.rs:x:1").unwrap_err(),
        LineRefError::BadLineNumber(NumberError::InvalidDigit)
    );
    assert_eq!(
        parse_line_ref("file.rs::1").unwrap_err(),
        LineRefError::BadLineNumber(NumberError::Empty)
    );
    assert_eq!(
        parse_line_ref("file.rs:99999999999999999999999:1").unwrap_err(),
        LineRefError::BadLineNumber(NumberError::TooLarge)
    );
}

fn std_kind(s: &str) -> Result<usize, NumberError> {
    s.parse::<usize>().map_err(|e| match e.kind() {
        IntErrorKind::Empty => NumberError::Empty,
        IntErrorKind::InvalidDigit => NumberError::InvalidDigit,
        IntErrorKind::PosOverflow => NumberError::TooLarge,
        other => panic!("unexpected {:?}", other),
    })
}

#[test]
fn parse_usize_agrees_with_std() {
    let samples = [
        "", "+", "-", "0", "7", "+7", "-7", "007", "12a", "a12", " 1", "1 ", "++1", "+-1",
        "18446744073709551615", "18446744073709551616", "99999999999999999999x",
        "99999999999999999999\u{663}", "4294967295", "4294967296", "\u{663}",
    ];
    for s in samples.iter() {
        let chars: Vec<char> = s.chars().collect();
        assert_eq!(parse_usize(&chars), std_kind(s), "text {:?}", s);
    }
}

#[test]
fn line_at_counts_from_one() {
    let content = "first\nsecond\r\nthird";
    assert_eq!(line_at(content, 1).unwrap(), "first");
    assert_eq!(line_at(content, 2).unwrap(), "second");
    assert_eq!(line_at(content, 3).unwrap(), "third");
    assert_eq!(line_at(content, 0).unwrap_err(), LineRefError::LineOutOfBounds);
    assert_eq!(line_at(content, 4).unwrap_err(), LineRefError::LineOutOfBounds);
    assert_eq!(line_at("", 1).unwrap_err(), LineRefError::LineOutOfBounds);
}

#[test]
fn lines_agree_with_std() {
    let samples = ["", "a", "a\n", "a\r\n", "\n", "\n\n", "a\rb\nc", "x\r", "x\r\r\ny", "\r\n\r\n"];
    for s in samples.iter() {
        let expected: Vec<&str> = s.lines().collect();
        for (i, l) in expected.iter().enumerate() {
            assert_eq!(line_at(s, i + 1).unwrap(), *l, "text {:?}", s);
        }
        assert!(line_at(s, expected.len() + 1).is_err());
    }
}

#[test]
fn target_is_opened_only_once() {
    let mut concern = LinesOfConcern::new();
    assert!(!concern.contains("a.rs:1:2"));
    assert!(concern.should_open("a.rs:1:2", "let x = 1;"));
    assert!(concern.contains("a.rs:1:2"));
    assert!(!concern.should_open("a.rs:1:2", "let x = 2;"));
    assert!(concern.should_open("a.rs:3:2", "let y = 1;"));
    assert!(!concern.should_open("a.rs:3:2", "let y = 1;"));
}

#[test]
fn check_line_ref_reads_the_named_line() {
    let mut concern = LinesOfConcern::new();
    let content = "fn main() {\n    let a = 1;\n}\n";
    let lr = parse_line_ref("src/main.rs:2:9").unwrap();
    assert_eq!(check_line_ref(&mut concern, "src/main.rs:2:9", &lr, content), Ok(true));
    assert_eq!(check_line_ref(&mut concern, "src/main.rs:2:9", &lr, content), Ok(false));
    let far = parse_line_ref("src/main.rs:9:1").unwrap();
    assert_eq!(
        check_line_ref(&mut concern, "src/main.rs:9:1", &far, content),
        Err(LineRefError::LineOutOfBounds)
    );
    // a refused target is not recorded
    assert!(!concern.contains("src/main.rs:9:1"));
}

#[test]
fn recorded_target_declined_whatever_the_file_holds() {
    let mut concern = LinesOfConcern::new();
    let lr = parse_line_ref("src/main.rs:3:1").unwrap();
    assert_eq!(check_line_ref(&mut concern, "src/main.rs:3:1", &lr, "a\nb\nc\n"), Ok(true));
    // the file has since become shorter: the recorded target is still declined
    assert_eq!(check_line_ref(&mut concern, "src/main.rs:3:1", &lr, "a\n"), Ok(false));
    assert_eq!(check_line_ref(&mut concern, "src/main.rs:3:1", &lr, ""), Ok(false));
}

#[test]
fn error_messages_match_std() {
    assert_eq!(LineRefError::NoColon.message(), "Target format error: could not find colon");
    assert_eq!(LineRefError::NoSecondColon.message(), "Target format error: could not find second colon");
    assert_eq!(LineRefError::LineOutOfBounds.message(), "Line number out of bounds");
    for s in ["", "x", "99999999999999999999999"].iter() {
        let std_msg = s.parse::<usize>().unwrap_err().to_string();
        let chars: Vec<char> = s.chars().collect();
        let ours = LineRefError::BadLineNumber(parse_usize(&chars).unwrap_err());
        assert_eq!(ours.message(), std_msg);
    }
}
