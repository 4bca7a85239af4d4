use shiboru::sources::buffers::{BufferInfo, BufferSource};
use shiboru::sources::{Source, SourceItem};

fn buf(handle: i32, name: &str, listed: bool) -> BufferInfo {
    BufferInfo { handle, name: name.to_owned(), listed }
}

#[test]
fn listed_named_buffers_become_items() {
    let bufs = vec![
        buf(1, "/p/main.rs", true),
        buf(2, "", true),
        buf(3, "/p/unlisted.rs", false),
        buf(12, "/p/lib.rs", true),
        buf(-4, "odd", true),
    ];
    let items = BufferSource::items(&bufs);
    let shown: Vec<(&str, &str, &str)> = items
        .iter()
        .map(|i| (i.display.as_str(), i.filter_text.as_str(), i.action.as_str()))
        .collect();
    assert_eq!(
        shown,
        vec![
            ("1: /p/main.rs", "/p/main.rs", "/p/main.rs"),
            ("12: /p/lib.rs", "/p/lib.rs", "/p/lib.rs"),
            ("-4: odd", "odd", "odd"),
        ]
    );
}

#[test]
fn item_for_single_buffer() {
    assert!(BufferSource::item_for(&buf(7, "", true)).is_none());
    assert!(BufferSource::item_for(&buf(7, "x", false)).is_none());
    let item = BufferSource::item_for(&buf(i32::MAX, "x", true)).unwrap();
    assert_eq!(item.display, "2147483647: x");
    let item = BufferSource::item_for(&buf(i32::MIN, "y", true)).unwrap();
    assert_eq!(item.display, "-2147483648: y");
}

#[test]
fn buffer_source_is_static() {
    let source = BufferSource::new();
    assert_eq!(source.name(), "Buffers");
    assert!(!source.is_live());
    let source = BufferSource::default();
    assert_eq!(source.name(), "Buffers");
}

#[test]
fn simple_item_repeats_text() {
    let item = SourceItem::simple("a/b.rs");
    assert_eq!(item.display, "a/b.rs");
    assert_eq!(item.filter_text, "a/b.rs");
    assert_eq!(item.action, "a/b.rs");
}
