use cbacon::monitor::{bacon_file_from_args, Monitor, MonitorAction, MonitorEvent, RoundEnd};
use cbacon::text::split_words;
use cbacon::line_ref::{LineRefError, NumberError};
use cbacon::vscode::{failure_report, launch_failure_report, line_ref_command, vscode_command};
use cbacon::watch::{watch_expired, SaveWatch, WatchEvent, WatchStep, SAVE_WINDOW_NANOS};

#[test]
fn line_ref_command_per_platform() {
    let (prog, args) = line_ref_command(false, "/a/b.rs:3:4");
    assert_eq!(prog, "code");
    assert_eq!(args, vec!["--goto", "--wait", "/a/b.rs:3:4"]);
    let (prog, args) = line_ref_command(true, "C:\\a\\b.rs:3:4");
    assert_eq!(prog, "cmd");
    assert_eq!(args, vec!["/C", "code", "--goto", "--wait", "C:\\a\\b.rs:3:4"]);
}

#[test]
fn vscode_command_per_platform() {
    let (prog, args) = vscode_command(false, "--goto --wait /a/b.rs:3:4");
    assert_eq!(prog, "code");
    assert_eq!(args, vec!["--goto", "--wait", "/a/b.rs:3:4"]);
    let (prog, args) = vscode_command(true, ".");
    assert_eq!(prog, "cmd");
    assert_eq!(args, vec!["/C", "code", "."]);
}

#[test]
fn path_with_spaces_stays_one_argument() {
    let (_, args) = line_ref_command(false, "/my dir/a.rs:1:2");
    assert_eq!(args, vec!["--goto", "--wait", "/my dir/a.rs:1:2"]);
}

#[test]
fn words_agree_with_std() {
    let samples = ["", "  ", "a", " a  b\tc\n", "\u{3000}x\u{a0}y\u{85}", "a\u{200b}b", "x\u{1680}y"];
    for s in samples.iter() {
        let expected: Vec<String> = s.split_whitespace().map(|w| w.to_string()).collect();
        assert_eq!(split_words(s), expected, "text {:?}", s);
    }
}

#[test]
fn white_space_class_agrees_with_std() {
    for u in 0u32..0x11000 {
        if let Some(c) = char::from_u32(u) {
            assert_eq!(cbacon::chars::is_white_space(c), c.is_whitespace(), "char {:x}", u);
        }
    }
}

#[test]
fn reports() {
    assert_eq!(failure_report("out", "err"), "Error opening VSCode:\nstdout: out\nstderr: err");
    assert_eq!(launch_failure_report("no such file"), "Failed to execute VSCode command: no such file");
}

#[test]
fn double_save_within_window() {
    let mut w = SaveWatch::new();
    assert_eq!(w.on_event(WatchEvent::Other), WatchStep::Ignored);
    assert_eq!(w.on_event(WatchEvent::Modified(2_000_000_000)), WatchStep::FirstSave);
    assert_eq!(w.on_event(WatchEvent::Modified(4_000_000_000)), WatchStep::DoubleSave);
}

#[test]
fn saves_too_far_apart_restart_the_window() {
    let mut w = SaveWatch::new();
    assert_eq!(w.on_event(WatchEvent::Modified(0)), WatchStep::FirstSave);
    assert_eq!(w.on_event(WatchEvent::Modified(SAVE_WINDOW_NANOS + 1)), WatchStep::WindowRestarted);
    assert_eq!(w.on_event(WatchEvent::Modified(SAVE_WINDOW_NANOS + 2)), WatchStep::DoubleSave);
}

#[test]
fn save_exactly_at_window_edge_counts() {
    let mut w = SaveWatch::new();
    assert_eq!(w.on_event(WatchEvent::Modified(5)), WatchStep::FirstSave);
    assert_eq!(w.on_event(WatchEvent::Modified(5 + SAVE_WINDOW_NANOS)), WatchStep::DoubleSave);
}

#[test]
fn quiet_ends_the_watch() {
    let mut w = SaveWatch::new();
    assert_eq!(w.on_event(WatchEvent::Modified(1)), WatchStep::FirstSave);
    assert_eq!(w.on_event(WatchEvent::Quiet), WatchStep::NoEvent);
    assert!(!watch_expired(12_000_000_000));
    assert!(watch_expired(12_000_000_001));
}

fn targets(v: &[&str]) -> MonitorEvent {
    MonitorEvent::BaconRead(v.iter().map(|s| s.to_string()).collect())
}

#[test]
fn monitor_opens_new_first_target_once() {
    let mut m = Monitor::new();
    match m.step(targets(&["src/a.rs:2:1", "src/b.rs:1:1"])) {
        MonitorAction::ReadTargetFile(p) => assert_eq!(p, "src/a.rs"),
        other => panic!("{:?}", other),
    }
    match m.step(MonitorEvent::TargetFileRead("one\ntwo\n".to_string())) {
        MonitorAction::OpenEditor(t) => assert_eq!(t, "src/a.rs:2:1"),
        other => panic!("{:?}", other),
    }
    // nothing but the editor's return ends the round
    assert!(matches!(m.step(targets(&["x:1:1"])), MonitorAction::Ignored));
    assert!(matches!(m.step(MonitorEvent::EditorClosed), MonitorAction::EndRound(RoundEnd::EditorClosed)));
    // the same first target is not opened again, and its file is not read
    assert!(matches!(
        m.step(targets(&["src/a.rs:2:1"])),
        MonitorAction::EndRound(RoundEnd::AlreadyOpened)
    ));
}

#[test]
fn monitor_round_ends() {
    let mut m = Monitor::new();
    assert!(matches!(m.step(targets(&[])), MonitorAction::EndRound(RoundEnd::NoWarnings)));
    assert!(matches!(m.step(MonitorEvent::BaconUnreadable), MonitorAction::EndRound(RoundEnd::BaconUnreadable)));
    match m.step(targets(&["a.rs:x:1"])) {
        MonitorAction::EndRound(RoundEnd::CheckFailed(t, e)) => {
            assert_eq!(t, "a.rs:x:1");
            assert_eq!(e, LineRefError::BadLineNumber(NumberError::InvalidDigit));
        }
        other => panic!("{:?}", other),
    }
    assert!(matches!(m.step(targets(&["a.rs:5:1"])), MonitorAction::ReadTargetFile(_)));
    match m.step(MonitorEvent::TargetFileRead("short\n".to_string())) {
        MonitorAction::EndRound(RoundEnd::CheckFailed(t, e)) => {
            assert_eq!(t, "a.rs:5:1");
            assert_eq!(e, LineRefError::LineOutOfBounds);
        }
        other => panic!("{:?}", other),
    }
    assert!(matches!(m.step(targets(&["a.rs:1:1"])), MonitorAction::ReadTargetFile(_)));
    match m.step(MonitorEvent::TargetFileUnreadable) {
        MonitorAction::EndRound(RoundEnd::TargetFileUnreadable(t)) => assert_eq!(t, "a.rs:1:1"),
        other => panic!("{:?}", other),
    }
    assert!(matches!(m.step(targets(&["a.rs:1:1"])), MonitorAction::ReadTargetFile(_)));
    assert!(matches!(m.step(MonitorEvent::TargetFileRead("x\n".to_string())), MonitorAction::OpenEditor(_)));
    match m.step(MonitorEvent::EditorFailed) {
        MonitorAction::EndRound(RoundEnd::EditorFailed(t)) => assert_eq!(t, "a.rs:1:1"),
        other => panic!("{:?}", other),
    }
}

#[test]
fn bacon_file_default_and_given() {
    assert_eq!(bacon_file_from_args(&vec!["cbacon".to_string()]), (".bacon-locations".to_string(), true));
    assert_eq!(
        bacon_file_from_args(&vec!["cbacon".to_string(), "x.txt".to_string()]),
        ("x.txt".to_string(), false)
    );
}
