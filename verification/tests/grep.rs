use shiboru::sources::grep::{parse_grep_output, GrepSource, SearchStep};
use shiboru::sources::Source;
use std::path::PathBuf;

#[test]
fn parse_grep_output_basic() {
    let output = "src/main.rs:10:fn main() {\nsrc/lib.rs:5:pub mod foo;\n";
    let items = parse_grep_output(output);
    assert_eq!(items.len(), 2);
    assert_eq!(items[0].action, "src/main.rs:10");
    assert!(items[0].display.contains("fn main()"));
    assert_eq!(items[1].action, "src/lib.rs:5");
}

#[test]
fn parse_grep_output_empty() {
    let items = parse_grep_output("");
    assert!(items.is_empty());
}

#[test]
fn parse_grep_output_malformed() {
    // Lines without enough colons are skipped.
    let output = "no-colon-here\nonly:one\nvalid:42:match\n";
    let items = parse_grep_output(output);
    assert_eq!(items.len(), 1);
    assert_eq!(items[0].action, "valid:42");
}

#[test]
fn grep_source_is_live() {
    let source = GrepSource::new(PathBuf::from("/tmp"));
    assert!(source.is_live());
}

#[test]
fn grep_source_empty_query() {
    let source = GrepSource::new(PathBuf::from("/tmp"));
    let items = source.collect("", b"");
    assert!(items.is_empty());
}

// -- Further cases ---------------------------------------------------------

#[test]
fn parse_grep_output_fields() {
    let output = "a.rs:3:   let x = 1;  \r\nb.rs:7:4:col:text\n\n:1:\n";
    let items = parse_grep_output(output);
    assert_eq!(items.len(), 3);
    assert_eq!(items[0].display, "a.rs:3: let x = 1;");
    assert_eq!(items[0].filter_text, items[0].display);
    assert_eq!(items[0].action, "a.rs:3");
    // Everything after the second colon is the text.
    assert_eq!(items[1].display, "b.rs:7: 4:col:text");
    assert_eq!(items[1].action, "b.rs:7");
    // Empty file and text are kept.
    assert_eq!(items[2].display, ":1: ");
    assert_eq!(items[2].action, ":1");
}

#[test]
fn parse_grep_output_last_line_without_newline() {
    let items = parse_grep_output("x:1:a\ny:2:b");
    assert_eq!(items.len(), 2);
    assert_eq!(items[1].display, "y:2: b");
    // A lone carriage return inside a line is not a line break.
    let items = parse_grep_output("x:1:a\rb\n");
    assert_eq!(items.len(), 1);
    assert_eq!(items[0].display, "x:1: a\rb");
}

#[test]
fn grep_source_collects_from_output() {
    let source = GrepSource::new(PathBuf::from("/tmp"));
    let items = source.collect("hello", b"hello.txt:1:hello world\nother.txt:2:hello again\n");
    let actions: Vec<&str> = items.iter().map(|i| i.action.as_str()).collect();
    assert_eq!(actions, vec!["hello.txt:1", "other.txt:2"]);
    // An empty query ignores any output.
    assert!(source.collect("", b"a:1:b\n").is_empty());
}

#[test]
fn grep_source_decodes_invalid_utf8_lossily() {
    let source = GrepSource::new(PathBuf::from("/tmp"));
    let items = source.collect("x", b"f\xff.txt:1:x\n");
    assert_eq!(items.len(), 1);
    assert_eq!(items[0].action, "f\u{FFFD}.txt:1");
}

#[test]
fn grep_source_commands() {
    let source = GrepSource::new(PathBuf::from("/tmp"));
    assert_eq!(source.root(), &PathBuf::from("/tmp"));
    assert_eq!(source.name(), "Grep");
    assert!(source.search_commands("").is_empty());
    let cmds = source.search_commands("needle");
    assert_eq!(cmds.len(), 2);
    assert_eq!(cmds[0].program, "rg");
    assert_eq!(
        cmds[0].args,
        vec!["--no-heading", "--line-number", "--color=never", "--max-count=200", "--max-columns=200", "needle"]
    );
    assert_eq!(cmds[1].program, "grep");
    assert_eq!(cmds[1].args, vec!["-rn", "--color=never", "--include=*", "-m", "200", "needle"]);
}

#[test]
fn collect_with_no_output_gives_no_items() {
    let source = GrepSource::new(PathBuf::from("/tmp"));
    assert!(source.collect("needle", b"").is_empty());
}

#[test]
fn search_steps_use_first_command_that_runs() {
    let source = GrepSource::new(PathBuf::from("/tmp"));
    assert!(matches!(source.start_search(""), SearchStep::Done(items) if items.is_empty()));
    match source.start_search("x") {
        SearchStep::Run(cmd) => assert_eq!(cmd.program, "rg"),
        SearchStep::Done(_) => panic!("expected rg to run"),
    }
    // rg ran: its output gives the items, whatever its exit status.
    match source.after_run("x", 0, Some(b"a.rs:1:x\n")) {
        SearchStep::Done(items) => assert_eq!(items[0].action, "a.rs:1"),
        SearchStep::Run(_) => panic!("nothing further runs"),
    }
    match source.after_run("x", 0, Some(b"")) {
        SearchStep::Done(items) => assert!(items.is_empty()),
        SearchStep::Run(_) => panic!("nothing further runs"),
    }
    // rg could not run: grep is tried.
    match source.after_run("x", 0, None) {
        SearchStep::Run(cmd) => {
            assert_eq!(cmd.program, "grep");
            assert_eq!(cmd.args, vec!["-rn", "--color=never", "--include=*", "-m", "200", "x"]);
        }
        SearchStep::Done(_) => panic!("expected grep to run"),
    }
    // Neither could run.
    assert!(matches!(source.after_run("x", 1, None), SearchStep::Done(items) if items.is_empty()));
}
