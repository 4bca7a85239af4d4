use shiboru::picker::PickerState;
use shiboru::sources::SourceItem;
use shiboru::ui::{format_lines, open_command, query_from_prompt, PickerLayout};

#[test]
fn layout_for_default_editor() {
    let l = PickerLayout::compute(None);
    assert_eq!(l.width, 64);
    assert_eq!(l.total_height, 14);
    assert_eq!(l.results_height, 12);
    assert_eq!(l.start_row, 5);
    assert_eq!(l.start_col, 8);
    assert_eq!(l.results_row, 7);
}

#[test]
fn layout_minimums_and_large_sizes() {
    let l = PickerLayout::compute(Some((10, 4)));
    assert_eq!((l.width, l.total_height, l.results_height), (20, 5, 3));
    assert_eq!((l.start_row, l.start_col), (0, 0));
    let l = PickerLayout::compute(Some((u32::MAX, u32::MAX)));
    assert_eq!(l.width, ((u32::MAX as f64) * 0.8) as u32);
    assert_eq!(l.total_height, ((u32::MAX as f64) * 0.6) as u32);
    // The integer fractions agree with scaling by 0.8 and 0.6.
    for w in 0..5000u32 {
        let l = PickerLayout::compute(Some((w, w)));
        assert_eq!(l.width, ((f64::from(w) * 0.8) as u32).max(20), "{w}");
        assert_eq!(l.total_height, ((f64::from(w) * 0.6) as u32).max(5), "{w}");
    }
}

#[test]
fn format_lines_marks_selection_and_status() {
    let lines = vec!["a", "b", "c"];
    let out = format_lines(&lines, 1, "3/9");
    assert_eq!(out, vec!["  a", "> b", "  c", "  [3/9]"]);
    let out = format_lines(&Vec::new(), 0, "0/0");
    assert_eq!(out, vec!["  [0/0]"]);
}

#[test]
fn open_command_for_targets() {
    assert_eq!(open_command("src/main.rs:10"), "edit +10 src/main.rs");
    assert_eq!(open_command("src/main.rs"), "edit src/main.rs");
    assert_eq!(open_command("a:b:+7"), "edit +7 a:b");
    assert_eq!(open_command("a:007"), "edit +7 a");
    assert_eq!(open_command("a:x1"), "edit a:x1");
    assert_eq!(open_command("a:"), "edit a:");
    assert_eq!(open_command("a:4294967295"), "edit +4294967295 a");
    assert_eq!(open_command("a:4294967296"), "edit a:4294967296");
    assert_eq!(open_command("a:-1"), "edit a:-1");
}

#[test]
fn prompt_text_becomes_query() {
    assert_eq!(query_from_prompt("> main"), "main");
    assert_eq!(query_from_prompt(">main"), ">main");
    assert_eq!(query_from_prompt("main"), "main");
    assert_eq!(query_from_prompt("> "), "");

    let mut state = PickerState::new(vec![SourceItem::simple("a"), SourceItem::simple("b")], 5);
    assert!(!state.update_from_prompt("> "));
    assert!(state.update_from_prompt("> ab"));
    assert_eq!(state.query(), "ab");
    assert!(state.needs_ranking());
    // The rendered prompt reads back as the same query.
    let prompt = state.prompt_line();
    assert!(!state.update_from_prompt(&prompt));
}
