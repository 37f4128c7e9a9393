use snippet_render::style::{Fallback, StyleTable};

#[test]
fn builtin_table_has_the_documented_colors() {
    let table = StyleTable::builtin();
    let expected = vec![
        ("keyword", "#ba8baf"),
        ("struct", "#f7ca88"),
        ("boolean", "#dc9656"),
        ("number", "#dc9656"),
        ("global", "#dc9656"),
        ("operator", "#d8d8d8"),
        ("comment", "#585858"),
        ("reference", "#585858"),
        ("string", "#a1b56c"),
        ("character", "#a1b56c"),
        ("function", "#7cafc2"),
        ("macro", "#7cafc2"),
        ("regex", "#86c1b9"),
        ("symbol", "#86c1b9"),
    ];
    for (category, color) in expected {
        assert_eq!(table.get(category).map(|c| c.as_str()), Some(color));
        assert_eq!(table.style_of(category).map(|c| c.as_str()), Some(color));
    }
}

#[test]
fn builtin_table_leaves_other_categories_unstyled() {
    let table = StyleTable::builtin();
    assert_eq!(table.get("namespace"), None);
    assert_eq!(table.get("attribute"), None);
    assert_eq!(table.get(""), None);
    assert_eq!(table.get("Keyword"), None);
    assert_eq!(table.style_of("namespace"), None);
    assert_eq!(*table.fallback(), Fallback::Unstyled);
}

#[test]
fn default_table_is_the_builtin_table() {
    let table = StyleTable::default();
    assert_eq!(table.get("keyword").map(|c| c.as_str()), Some("#ba8baf"));
    assert_eq!(table.get("symbol").map(|c| c.as_str()), Some("#86c1b9"));
    assert_eq!(table.get("other"), None);
    assert_eq!(*table.fallback(), Fallback::Unstyled);
}

#[test]
fn new_table_is_empty() {
    let table = StyleTable::new(Fallback::Unstyled);
    assert_eq!(table.get("keyword"), None);
    assert_eq!(table.style_of("keyword"), None);
}

#[test]
fn insert_adds_an_entry() {
    let mut table = StyleTable::new(Fallback::Unstyled);
    table.insert("keyword", "red");
    assert_eq!(table.get("keyword").map(|c| c.as_str()), Some("red"));
    assert_eq!(table.get("string"), None);
    table.insert("string", "green");
    assert_eq!(table.get("keyword").map(|c| c.as_str()), Some("red"));
    assert_eq!(table.get("string").map(|c| c.as_str()), Some("green"));
}

#[test]
fn insert_replaces_the_color_of_a_category() {
    let mut table = StyleTable::builtin();
    table.insert("keyword", "#000000");
    assert_eq!(table.get("keyword").map(|c| c.as_str()), Some("#000000"));
    assert_eq!(table.get("struct").map(|c| c.as_str()), Some("#f7ca88"));
    table.insert("keyword", "#111111");
    assert_eq!(table.get("keyword").map(|c| c.as_str()), Some("#111111"));
}

#[test]
fn fallback_color_paints_unknown_categories() {
    let mut table = StyleTable::new(Fallback::Color(String::from("#ffffff")));
    table.insert("keyword", "red");
    assert_eq!(table.get("other"), None);
    assert_eq!(table.style_of("other").map(|c| c.as_str()), Some("#ffffff"));
    assert_eq!(table.style_of("keyword").map(|c| c.as_str()), Some("red"));
    assert_eq!(*table.fallback(), Fallback::Color(String::from("#ffffff")));
}

#[test]
fn set_fallback_keeps_the_entries() {
    let mut table = StyleTable::builtin();
    table.set_fallback(Fallback::Color(String::from("gray")));
    assert_eq!(table.get("keyword").map(|c| c.as_str()), Some("#ba8baf"));
    assert_eq!(table.style_of("namespace").map(|c| c.as_str()), Some("gray"));
    table.set_fallback(Fallback::Unstyled);
    assert_eq!(table.style_of("namespace"), None);
}
