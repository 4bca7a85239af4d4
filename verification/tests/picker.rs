use shiboru::picker::{PickerAction, PickerState};
use shiboru::sources::SourceItem;

/// A small subsequence matcher standing in for the editor's fuzzy matcher:
/// case-insensitive, ranked by where the match starts and how spread out it is.
fn rank(query: &str, candidates: &[&str]) -> Vec<usize> {
    let q: Vec<char> = query.to_lowercase().chars().collect();
    let mut scored: Vec<(usize, usize, usize)> = Vec::new();
    for (idx, cand) in candidates.iter().enumerate() {
        let c: Vec<char> = cand.to_lowercase().chars().collect();
        let mut qi = 0;
        let mut first = None;
        let mut last = 0;
        for (ci, ch) in c.iter().enumerate() {
            if qi < q.len() && *ch == q[qi] {
                if first.is_none() {
                    first = Some(ci);
                }
                last = ci;
                qi += 1;
            }
        }
        if qi == q.len() {
            let start = first.unwrap_or(0);
            scored.push((last - start, start, idx));
        }
    }
    scored.sort();
    scored.into_iter().map(|(_, _, idx)| idx).collect()
}

/// Hands the matcher's ranking to the state when its query waits for one.
fn settle(state: &mut PickerState) {
    if state.needs_ranking() {
        let ranked = rank(state.query(), &state.candidates());
        state.apply_ranking(ranked);
    }
}

fn sample_items() -> Vec<SourceItem> {
    vec![
        SourceItem::simple("src/main.rs"),
        SourceItem::simple("src/lib.rs"),
        SourceItem::simple("Cargo.toml"),
        SourceItem::simple("README.md"),
        SourceItem::simple("src/picker.rs"),
        SourceItem::simple("src/ui.rs"),
    ]
}

#[test]
fn initial_state_shows_all_items() {
    let state = PickerState::new(sample_items(), 10);
    assert_eq!(state.filtered_count(), 6);
    assert_eq!(state.total_count(), 6);
    assert_eq!(state.selected_index(), 0);
    assert_eq!(state.query(), "");
}

#[test]
fn push_char_filters_results() {
    let mut state = PickerState::new(sample_items(), 10);
    for c in ['m', 'a', 'i', 'n'] {
        state.push_char(c);
        settle(&mut state);
    }

    // "main" should match at least src/main.rs
    assert!(
        state.filtered_count() >= 1,
        "should match at least one item for 'main'"
    );

    let lines = state.visible_lines();
    assert!(
        lines.iter().any(|l| l.contains("main")),
        "visible lines should include main: {lines:?}"
    );
}

#[test]
fn pop_char_widens_results() {
    let mut state = PickerState::new(sample_items(), 10);
    state.set_query("main");
    settle(&mut state);
    let narrow = state.filtered_count();

    state.pop_char(); // "mai"
    settle(&mut state);
    let wider = state.filtered_count();

    assert!(
        wider >= narrow,
        "removing a char should not reduce results: narrow={narrow}, wider={wider}"
    );
}

#[test]
fn clear_query_shows_all() {
    let mut state = PickerState::new(sample_items(), 10);
    state.set_query("xyz");
    settle(&mut state);
    assert_eq!(state.filtered_count(), 0);

    state.clear_query();
    settle(&mut state);
    assert_eq!(state.filtered_count(), 6);
}

#[test]
fn select_next_and_prev() {
    let mut state = PickerState::new(sample_items(), 10);
    assert_eq!(state.selected_index(), 0);

    state.select_next();
    assert_eq!(state.selected_index(), 1);

    state.select_next();
    assert_eq!(state.selected_index(), 2);

    state.select_prev();
    assert_eq!(state.selected_index(), 1);
}

#[test]
fn select_next_clamps_at_end() {
    let mut state = PickerState::new(sample_items(), 10);
    for _ in 0..100 {
        state.select_next();
    }
    assert_eq!(state.selected_index(), 5); // last item
}

#[test]
fn select_prev_clamps_at_zero() {
    let mut state = PickerState::new(sample_items(), 10);
    state.select_prev();
    assert_eq!(state.selected_index(), 0);
}

#[test]
fn select_first_and_last() {
    let mut state = PickerState::new(sample_items(), 10);
    state.select_last();
    assert_eq!(state.selected_index(), 5);

    state.select_first();
    assert_eq!(state.selected_index(), 0);
}

#[test]
fn accept_returns_action() {
    let state = PickerState::new(sample_items(), 10);
    let action = state.accept().unwrap();
    assert_eq!(action, PickerAction::Accept("src/main.rs".to_owned()));
}

#[test]
fn accept_on_empty_returns_none() {
    let mut state = PickerState::new(sample_items(), 10);
    state.set_query("zzzzzzz_no_match");
    settle(&mut state);
    assert!(state.accept().is_none());
}

#[test]
fn cancel_action() {
    let state = PickerState::new(sample_items(), 10);
    assert_eq!(state.cancel(), PickerAction::Cancel);
}

#[test]
fn scrolling_works() {
    let mut state = PickerState::new(sample_items(), 3);
    assert_eq!(state.scroll_offset(), 0);
    assert_eq!(state.visible_lines().len(), 3);

    // Move to item index 3 (beyond visible_rows=3)
    state.select_next();
    state.select_next();
    state.select_next();

    assert_eq!(state.selected_index(), 3);
    assert_eq!(state.scroll_offset(), 1);
}

#[test]
fn visible_selected_is_relative() {
    let mut state = PickerState::new(sample_items(), 3);
    state.select_next();
    state.select_next();
    state.select_next(); // index 3, scroll_offset 1
    // visible_selected = 3 - 1 = 2
    assert_eq!(state.visible_selected(), 2);
}

#[test]
fn prompt_line_format() {
    let mut state = PickerState::new(sample_items(), 10);
    assert_eq!(state.prompt_line(), "> ");

    state.set_query("hello");
    settle(&mut state);
    assert_eq!(state.prompt_line(), "> hello");
}

#[test]
fn status_line_format() {
    let mut state = PickerState::new(sample_items(), 10);
    assert_eq!(state.status_line(), "6/6");

    state.set_query("main");
    settle(&mut state);
    let status = state.status_line();
    assert!(status.ends_with("/6"), "status should end with /6: {status}");
}

#[test]
fn set_items_refilters() {
    let mut state = PickerState::new(sample_items(), 10);
    state.set_query("src");
    settle(&mut state);
    let before = state.filtered_count();

    // Add more items that match "src"
    let mut items = sample_items();
    items.push(SourceItem::simple("src/extra.rs"));
    state.set_items(items);
    settle(&mut state);

    assert!(
        state.filtered_count() >= before,
        "adding matching items should not reduce count"
    );
}

#[test]
fn empty_items() {
    let state = PickerState::new(Vec::new(), 10);
    assert_eq!(state.filtered_count(), 0);
    assert_eq!(state.total_count(), 0);
    assert!(state.visible_lines().is_empty());
    assert!(state.accept().is_none());
}

#[test]
fn fuzzy_matching_ranks_best_first() {
    let mut state = PickerState::new(sample_items(), 10);
    state.set_query("pick");
    settle(&mut state);

    let lines = state.visible_lines();
    if !lines.is_empty() {
        assert!(
            lines[0].contains("picker"),
            "first result should contain 'picker': {lines:?}"
        );
    }
}

#[test]
fn navigation_resets_on_filter_change() {
    let mut state = PickerState::new(sample_items(), 10);
    state.select_next();
    state.select_next();
    assert_eq!(state.selected_index(), 2);

    state.push_char('a');
    settle(&mut state);
    assert_eq!(
        state.selected_index(),
        0,
        "selection should reset after filtering"
    );
}

// -- Further cases ---------------------------------------------------------

#[test]
fn non_empty_query_waits_for_ranking() {
    let mut state = PickerState::new(sample_items(), 10);
    state.push_char('s');
    assert!(state.needs_ranking());
    assert_eq!(state.filtered_count(), 0);
    assert_eq!(
        state.candidates(),
        vec!["src/main.rs", "src/lib.rs", "Cargo.toml", "README.md", "src/picker.rs", "src/ui.rs"]
    );
    state.apply_ranking(vec![4, 0]);
    assert!(!state.needs_ranking());
    assert_eq!(state.visible_lines(), vec!["src/picker.rs", "src/main.rs"]);
    assert_eq!(state.status_line(), "2/6");
    // The best match is accepted first.
    assert_eq!(state.accept(), Some(PickerAction::Accept("src/picker.rs".to_owned())));
}

#[test]
fn pop_char_restores_query() {
    let mut state = PickerState::new(sample_items(), 10);
    state.set_query("ma");
    state.push_char('x');
    assert_eq!(state.query(), "max");
    state.pop_char();
    assert_eq!(state.query(), "ma");
    state.pop_char();
    state.pop_char();
    assert_eq!(state.query(), "");
    // Popping an empty query keeps it empty and lists every item.
    state.pop_char();
    assert_eq!(state.query(), "");
    assert_eq!(state.filtered_count(), 6);
    assert!(!state.needs_ranking());
}

#[test]
fn marked_line_is_accepted_item() {
    let mut state = PickerState::new(sample_items(), 2);
    state.select_last();
    assert_eq!(state.selected_index(), 5);
    assert_eq!(state.scroll_offset(), 4);
    let lines = state.visible_lines();
    assert_eq!(lines, vec!["src/picker.rs", "src/ui.rs"]);
    let marked = lines[state.visible_selected()];
    assert_eq!(state.accept(), Some(PickerAction::Accept(marked.to_owned())));
    // Moving back up scrolls the window up with the selection.
    for _ in 0..5 {
        state.select_prev();
    }
    assert_eq!(state.selected_index(), 0);
    assert_eq!(state.scroll_offset(), 0);
    assert_eq!(state.visible_selected(), 0);
}

#[test]
fn accept_uses_item_action_not_display() {
    let item = SourceItem {
        display: "3: notes.txt".to_owned(),
        filter_text: "notes.txt".to_owned(),
        action: "notes.txt".to_owned(),
    };
    let mut state = PickerState::new(vec![item], 5);
    assert_eq!(state.candidates(), vec!["notes.txt"]);
    assert_eq!(state.visible_lines(), vec!["3: notes.txt"]);
    assert_eq!(state.accept(), Some(PickerAction::Accept("notes.txt".to_owned())));
    state.select_next();
    assert_eq!(state.selected_index(), 0);
}

#[test]
fn status_line_counts_many_items() {
    let items: Vec<SourceItem> = (0..120).map(|i| SourceItem::simple(&format!("f{i}"))).collect();
    let mut state = PickerState::new(items, 10);
    assert_eq!(state.status_line(), "120/120");
    state.set_query("f1");
    state.apply_ranking((10..20).collect());
    assert_eq!(state.status_line(), "10/120");
    assert_eq!(state.visible_rows(), 10);
}

#[test]
fn selection_stays_in_view_with_one_row() {
    let mut state = PickerState::new(sample_items(), 1);
    for expected in 1..6 {
        state.select_next();
        assert_eq!(state.selected_index(), expected);
        assert_eq!(state.scroll_offset(), expected);
        assert_eq!(state.visible_selected(), 0);
        assert_eq!(state.visible_lines().len(), 1);
    }
}
