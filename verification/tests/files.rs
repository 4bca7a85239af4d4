use shiboru::sources::files::{FileSource, WalkStep};
use shiboru::sources::Source;

#[test]
fn is_not_live() {
    let dir = tempfile::tempdir().expect("create tempdir");
    let source = FileSource::new(dir.path().to_path_buf());
    assert!(!source.is_live());
}

// -- Further cases ---------------------------------------------------------

#[test]
fn skipped_and_hidden_directories_are_not_entered() {
    for name in [".git", "node_modules", "target", ".next", "__pycache__", ".venv", "dist", "build", ".direnv", ".hidden"] {
        assert!(!FileSource::enters_dir(name), "{name}");
    }
    for name in ["src", "tests", "targets", "builds", "a.git", ""] {
        assert!(FileSource::enters_dir(name), "{name}");
    }
}

#[test]
fn relative_display_strips_root() {
    assert_eq!(FileSource::relative_display("/tmp/x/src/main.rs", "/tmp/x"), Some("src/main.rs".to_owned()));
    assert_eq!(FileSource::relative_display("/tmp/x/foo.rs", "/tmp/x/"), Some("foo.rs".to_owned()));
    // Only whole components form a prefix.
    assert_eq!(FileSource::relative_display("/tmp/xy/foo.rs", "/tmp/x"), None);
    assert_eq!(FileSource::relative_display("/other/foo.rs", "/tmp/x"), None);
}

#[test]
fn sorted_items_orders_by_display() {
    let paths: Vec<String> = ["src/main.rs", "bar.txt", "foo.rs", "src/lib.rs", "Z.md", "é.txt", "bar.txt"]
        .iter()
        .map(|s| s.to_string())
        .collect();
    let items = FileSource::sorted_items(&paths);
    let names: Vec<&str> = items.iter().map(|i| i.display.as_str()).collect();
    assert_eq!(names, vec!["Z.md", "bar.txt", "bar.txt", "foo.rs", "src/lib.rs", "src/main.rs", "é.txt"]);
    for item in &items {
        assert_eq!(item.display, item.filter_text);
        assert_eq!(item.display, item.action);
    }
    assert!(FileSource::sorted_items(&Vec::new()).is_empty());
}

#[test]
fn file_source_name_and_root() {
    let source = FileSource::new(std::path::PathBuf::from("/tmp/x"));
    assert_eq!(source.name(), "Files");
    assert_eq!(source.root(), &std::path::PathBuf::from("/tmp/x"));
}

#[test]
fn visit_decides_per_entry() {
    assert!(matches!(FileSource::visit("src", true, "/r/src", "/r"), WalkStep::Descend));
    assert!(matches!(FileSource::visit(".git", true, "/r/.git", "/r"), WalkStep::Skip));
    assert!(matches!(FileSource::visit("target", true, "/r/target", "/r"), WalkStep::Skip));
    match FileSource::visit("main.rs", false, "/r/src/main.rs", "/r") {
        WalkStep::Record(rel) => assert_eq!(rel, "src/main.rs"),
        _ => panic!("a file is listed"),
    }
    // Hidden files are listed; only hidden directories are skipped.
    assert!(matches!(FileSource::visit(".env", false, "/r/.env", "/r"), WalkStep::Record(_)));
    assert!(matches!(FileSource::visit("x", false, "/elsewhere/x", "/r"), WalkStep::Skip));
}

#[test]
fn sorted_items_handles_many_paths() {
    let paths: Vec<String> = (0..20000u32).rev().map(|i| format!("dir/{:05}.rs", (i * 7919) % 20000)).collect();
    let items = FileSource::sorted_items(&paths);
    assert_eq!(items.len(), 20000);
    for w in items.windows(2) {
        assert!(w[0].display <= w[1].display);
    }
    let mut expected = paths.clone();
    expected.sort();
    let got: Vec<String> = items.into_iter().map(|i| i.display).collect();
    assert_eq!(got, expected);
}
