//! The command lines that open VSCode, and the reports of a failed launch.

use vstd::prelude::*;
use crate::text::{split_words, views, words_of};

verus! {

/// `s` followed by `t`, as a new string.
fn concat(s: &str, t: &str) -> (r: String)
    ensures
        r@ == s@ + t@,
{
    let mut r = s.to_owned();
    r.append(t);
    r
}

/// The program to run and its arguments for opening VSCode with the argument
/// text `args`: the text is split at whitespace; on Windows the editor is
/// started through `cmd /C code`, elsewhere `code` is run directly.
pub fn vscode_command(on_windows: bool, args: &str) -> (r: (String, Vec<String>))
    ensures
        views(r.1@) == (if on_windows {
            seq!["/C"@, "code"@] + words_of(args@)
        } else {
            words_of(args@)
        }),
        r.0@ == (if on_windows { "cmd"@ } else { "code"@ }),
{
    let words = split_words(args);
    assert(views(words@) =~= words_of(args@));
    if on_windows {
        let mut all: Vec<String> = Vec::new();
        all.push("/C".to_owned());
        all.push("code".to_owned());
        let mut i: usize = 0;
        while i < words.len()
            invariant
                i <= words.len(),
                views(words@) == words_of(args@),
                views(all@) == seq!["/C"@, "code"@] + words_of(args@).take(i as int),
            decreases words.len() - i,
        {
            let w = words[i].clone();
            let ghost before = all@;
            assert(views(words@)[i as int] == words@[i as int]@);
            all.push(w);
            assert(all@ =~= before.push(w));
            assert(views(all@) =~= views(before).push(w@));
            assert(words_of(args@).take(i + 1) =~= words_of(args@).take(i as int).push(words@[i as int]@));
            assert(views(all@) =~= seq!["/C"@, "code"@] + words_of(args@).take(i + 1));
            i = i + 1;
        }
        assert(words_of(args@).take(words.len() as int) =~= words_of(args@));
        ("cmd".to_owned(), all)
    } else {
        ("code".to_owned(), words)
    }
}

/// The program to run and its arguments for opening the warning location
/// `target` (`path:line:column`) at its line and column and waiting until the
/// editor tab is closed: `--goto`, `--wait` and then the whole target as one
/// argument, so that a path with spaces stays one path; on Windows the editor
/// is started through `cmd /C code`, elsewhere `code` is run directly.
pub fn line_ref_command(on_windows: bool, target: &str) -> (r: (String, Vec<String>))
    ensures
        views(r.1@) == (if on_windows {
            seq!["/C"@, "code"@, "--goto"@, "--wait"@, target@]
        } else {
            seq!["--goto"@, "--wait"@, target@]
        }),
        r.0@ == (if on_windows { "cmd"@ } else { "code"@ }),
{
    let mut argv: Vec<String> = Vec::new();
    if on_windows {
        argv.push("/C".to_owned());
        argv.push("code".to_owned());
    }
    argv.push("--goto".to_owned());
    argv.push("--wait".to_owned());
    argv.push(target.to_owned());
    assert(views(argv@) =~= (if on_windows {
        seq!["/C"@, "code"@, "--goto"@, "--wait"@, target@]
    } else {
        seq!["--goto"@, "--wait"@, target@]
    }));
    let program = if on_windows {
        "cmd".to_owned()
    } else {
        "code".to_owned()
    };
    (program, argv)
}

/// The report printed when VSCode ran but did not succeed.
pub fn failure_report(stdout: &str, stderr: &str) -> (m: String)
    ensures
        m@ == "Error opening VSCode:\nstdout: "@ + stdout@ + "\nstderr: "@ + stderr@,
{
    let mut m = "Error opening VSCode:\nstdout: ".to_owned();
    m.append(stdout);
    m.append("\nstderr: ");
    m.append(stderr);
    m
}

/// The report printed when VSCode could not be started at all.
pub fn launch_failure_report(error: &str) -> (m: String)
    ensures
        m@ == "Failed to execute VSCode command: "@ + error@,
{
    concat("Failed to execute VSCode command: ", error)
}


} // verus!
