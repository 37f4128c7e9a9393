use snippet_render::escape::{escape, push_escaped, unescape};

#[test]
fn escape_replaces_each_special_character() {
    assert_eq!(escape("&"), "&amp;");
    assert_eq!(escape("<"), "&lt;");
    assert_eq!(escape(">"), "&gt;");
    assert_eq!(escape("\""), "&quot;");
    assert_eq!(escape("'"), "&#39;");
}

#[test]
fn escape_keeps_plain_text() {
    assert_eq!(escape(""), "");
    assert_eq!(escape("fn main() {}"), "fn main() {}");
    assert_eq!(escape("你好 ünïcödé\t;"), "你好 ünïcödé\t;");
}

#[test]
fn escape_mixed_text() {
    assert_eq!(escape("if a < b && b > c {"), "if a &lt; b &amp;&amp; b &gt; c {");
    assert_eq!(escape("let s = \"x\";"), "let s = &quot;x&quot;;");
    assert_eq!(escape("let c = '<';"), "let c = &#39;&lt;&#39;;");
}

#[test]
fn escaped_text_holds_no_markup_characters() {
    let out = escape("<div class=\"a\" id='b'>&</div>");
    assert!(!out.contains('<'));
    assert!(!out.contains('>'));
    assert!(!out.contains('"'));
    assert!(!out.contains('\''));
}

#[test]
fn escape_is_applied_once_and_is_not_idempotent() {
    assert_eq!(escape("&amp;"), "&amp;amp;");
    assert_eq!(escape("&lt;"), "&amp;lt;");
    let once = escape("a < b");
    let twice = escape(&once);
    assert_eq!(once, "a &lt; b");
    assert_eq!(twice, "a &amp;lt; b");
    assert_ne!(once, twice);
}

#[test]
fn escaping_plain_text_twice_changes_nothing() {
    let once = escape("plain text");
    assert_eq!(escape(&once), once);
}

#[test]
fn push_escaped_appends() {
    let mut out = String::from("x=");
    push_escaped(&mut out, "<y>");
    assert_eq!(out, "x=&lt;y&gt;");
    push_escaped(&mut out, "");
    assert_eq!(out, "x=&lt;y&gt;");
}

#[test]
fn unescape_reads_each_reference() {
    assert_eq!(unescape("&amp;"), "&");
    assert_eq!(unescape("&lt;"), "<");
    assert_eq!(unescape("&gt;"), ">");
    assert_eq!(unescape("&quot;"), "\"");
    assert_eq!(unescape("&#39;"), "'");
}

#[test]
fn unescape_keeps_what_is_no_reference() {
    assert_eq!(unescape(""), "");
    assert_eq!(unescape("a & b"), "a & b");
    assert_eq!(unescape("&amp"), "&amp");
    assert_eq!(unescape("&unknown;"), "&unknown;");
    assert_eq!(unescape("&&lt;"), "&<");
    assert_eq!(unescape("&l&lt;t;"), "&l<t;");
}

#[test]
fn unescape_reads_one_layer_only() {
    assert_eq!(unescape("&amp;lt;"), "&lt;");
    assert_eq!(unescape("&amp;amp;"), "&amp;");
}

#[test]
fn unescape_gives_the_raw_text_back() {
    let samples = vec![
        "",
        "plain",
        "<",
        "a < b && c > d",
        "&amp;",
        "&lt;&gt;",
        "\"quoted\" and 'single'",
        "<span style=\"color: red;\">x</span>",
        "&#39;&quot;&",
        "你好 < 世界 & ünï",
        "&&&&",
        ";&;",
    ];
    for raw in samples {
        assert_eq!(unescape(&escape(raw)), raw);
    }
}
