use cbacon::chars::{is_digit, is_word};
use cbacon::location::{bacon_targets, location_of_line};

#[test]
fn test_read_bacon_file_valid() {
    let test_content = "\
warning /path/to/file.rs:23:17 Some warning message
warning /another/path/file.rs:45:2 Another warning message
";
    let targets = bacon_targets(test_content);
    assert_eq!(targets.len(), 2);
    assert_eq!(targets[0], "/path/to/file.rs:23:17");
    assert_eq!(targets[1], "/another/path/file.rs:45:2");
}

#[test]
fn test_read_bacon_file_empty() {
    let targets = bacon_targets("");
    assert!(targets.is_empty());
}

#[test]
fn test_read_bacon_file_invalid_format() {
    let test_content = "\
This is not a valid warning line
warning no_colon_or_numbers
warning /file/path:line:col Extra text that doesn't match
";
    let targets = bacon_targets(test_content);
    assert!(targets.is_empty());
}

#[test]
fn test_read_bacon_locations_with_sample_rs() {
    let canonical_sample_path = "/home/user/project/testgen/sample.rs".to_string();
    let warnings = vec![
        format!("warning {}:4:9 unused variable: `unused_var`", canonical_sample_path),
        format!("warning {}:8:9 unused variable: `another_unused`", canonical_sample_path),
        format!("warning {}:11:9 unused variable: `e`", canonical_sample_path),
    ];
    let warnings_content = warnings.join("\n");
    let targets = bacon_targets(&warnings_content);
    let expected_targets = vec![
        format!("{}:4:9", canonical_sample_path),
        format!("{}:8:9", canonical_sample_path),
        format!("{}:11:9", canonical_sample_path),
    ];
    assert_eq!(targets, expected_targets);
}

#[test]
fn location_without_kind_word() {
    assert_eq!(location_of_line("src/main.rs:3:4").as_deref(), Some("src/main.rs:3:4"));
}

#[test]
fn location_keeps_windows_drive_colon() {
    assert_eq!(
        location_of_line("warning C:\\src\\main.rs:12:5 oops").as_deref(),
        Some("C:\\src\\main.rs:12:5")
    );
}

#[test]
fn location_path_is_shortest() {
    // the path stops at the first `:line:column` that can follow it
    assert_eq!(location_of_line("error a:1:2:3:4 x").as_deref(), Some("a:1:2"));
}

#[test]
fn location_column_needs_word_boundary() {
    // `2x` has no word boundary after the column digits
    assert_eq!(location_of_line("warning a.rs:1:2x").as_deref(), None);
    assert_eq!(location_of_line("warning a.rs:1:2-x").as_deref(), Some("a.rs:1:2"));
}

#[test]
fn location_takes_all_whitespace_after_kind() {
    assert_eq!(location_of_line("warning   b.rs:7:8").as_deref(), Some("b.rs:7:8"));
}

#[test]
fn location_falls_back_to_whole_line_path() {
    // the kind word cannot be followed by a path: the path then starts at the line start
    assert_eq!(location_of_line("x :1:2").as_deref(), Some("x :1:2"));
}

#[test]
fn location_with_unicode_digits() {
    // `\d` is Unicode-aware: Arabic-Indic digits count as digits
    assert_eq!(location_of_line("w p:\u{663}:\u{664} m").as_deref(), Some("p:\u{663}:\u{664}"));
    // a non-ASCII letter right after the column is a word character
    assert_eq!(location_of_line("w p:1:2\u{e9}"), None);
}

#[test]
fn crlf_lines_are_split() {
    let targets = bacon_targets("warning a.rs:1:2 x\r\nwarning b.rs:3:4\r\n");
    assert_eq!(targets, vec!["a.rs:1:2".to_string(), "b.rs:3:4".to_string()]);
}

#[test]
fn locations_agree_with_the_pattern() {
    let re = regex::Regex::new(r"^(?:\S+\s+)?(.+?):(\d+):(\d+)\b").unwrap();
    let samples = [
        "warning /p/f.rs:1:2 m",
        "warning  \t /p/f.rs:1:2 m",
        " lead a:1:2",
        "a:b:1:2",
        "k v:1:23abc",
        "k v:1:23 abc:4:5",
        "k\u{a0}v:1:2",
        "k v:\u{663}\u{664}:9_",
        "::1:2",
        "k :1:2",
        "k\u{2003}\u{3000}x y:10:20",
        "nothing here",
        "k v:99999999999999999999999:1",
        "w p:1:2\u{300}",
        "w p:1:2\u{661}",
        "w ab\rcd:3:4",
    ];
    for line in samples.iter() {
        let expected = re
            .captures(line)
            .map(|c| format!("{}:{}:{}", &c[1], &c[2], &c[3]));
        assert_eq!(location_of_line(line), expected, "line {:?}", line);
    }
}

#[test]
fn char_classes_agree_with_regex() {
    let digit = regex::Regex::new(r"\A\d\z").unwrap();
    let word = regex::Regex::new(r"\A\w\z").unwrap();
    let mut u = 0u32;
    while u < 0x20000 {
        if let Some(c) = char::from_u32(u) {
            let mut buf = [0u8; 4];
            let s = c.encode_utf8(&mut buf);
            assert_eq!(is_digit(c), digit.is_match(s), "char {:x}", u);
            assert_eq!(is_word(c), word.is_match(s), "char {:x}", u);
        }
        u += if u < 0x100 { 1 } else { 37 };
    }
    assert!(is_digit('\u{663}'));
    assert!(!is_digit('\u{e9}'));
    assert!(is_word('\u{e9}'));
    assert!(!is_word('\u{2014}'));
}

#[test]
fn joined_texts_list_targets_in_turn() {
    let a = "warning a.rs:1:2 x\nnot a location\n";
    let b = "error b.rs:3:4 y\n";
    let mut joined = bacon_targets(a);
    joined.extend(bacon_targets(b));
    assert_eq!(bacon_targets(&format!("{}{}", a, b)), joined);
    let with_noise = format!("{}warning no_colon_or_numbers\n{}", a, b);
    assert_eq!(bacon_targets(&with_noise), joined);
}
