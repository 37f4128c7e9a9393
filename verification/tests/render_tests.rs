use snippet_render::diagnostic::Diagnostic;
use snippet_render::escape::unescape;
use snippet_render::render::render;
use snippet_render::style::{Fallback, StyleTable};
use snippet_render::token::Token;

const OPEN: &str = "<div style=\"background: #181818; overflow:auto;width:auto;padding:.2em .6em;\"><pre style=\"margin: 0; line-height: 125%\">";
const CLOSE: &str = "</pre></div>";

fn start(category: &str) -> Token {
    Token::Start(String::from(category))
}

fn text(content: &str) -> Token {
    Token::Text(String::from(content))
}

fn end(marker: &str) -> Token {
    Token::End(String::from(marker))
}

fn framed(body: &str) -> String {
    format!("{}{}{}", OPEN, body, CLOSE)
}

fn count(haystack: &str, needle: &str) -> usize {
    haystack.matches(needle).count()
}

#[test]
fn renders_the_keyword_example() {
    let lines = vec![vec![start("keyword"), text("fn"), end("keyword"), text(" a(){}")]];
    let mut diagnostics = Vec::new();
    let markup = render(&lines, &StyleTable::builtin(), &mut diagnostics);
    assert_eq!(
        markup,
        framed(" 0 <span style=\"color: #ba8baf;\">fn</span> a(){}\n")
    );
    assert!(diagnostics.is_empty());
}

#[test]
fn renders_no_lines_as_an_empty_container() {
    let lines: Vec<Vec<Token>> = Vec::new();
    let mut diagnostics = Vec::new();
    let markup = render(&lines, &StyleTable::builtin(), &mut diagnostics);
    assert_eq!(markup, framed(""));
    assert!(diagnostics.is_empty());
}

#[test]
fn renders_an_empty_line_as_its_number() {
    let lines: Vec<Vec<Token>> = vec![Vec::new()];
    let mut diagnostics = Vec::new();
    let markup = render(&lines, &StyleTable::builtin(), &mut diagnostics);
    assert_eq!(markup, framed(" 0 \n"));
}

#[test]
fn numbers_lines_from_zero_without_gaps() {
    let mut lines: Vec<Vec<Token>> = Vec::new();
    let mut i: usize = 0;
    while i < 12 {
        if i % 3 == 0 {
            lines.push(vec![start("keyword"), text("let"), end("keyword"), start("number"), text("1"), end("number")]);
        } else if i % 3 == 1 {
            lines.push(Vec::new());
        } else {
            lines.push(vec![text("x")]);
        }
        i += 1;
    }
    let mut diagnostics = Vec::new();
    let markup = render(&lines, &StyleTable::builtin(), &mut diagnostics);
    let body = &markup[OPEN.len()..markup.len() - CLOSE.len()];
    let rendered: Vec<&str> = body.split_terminator('\n').collect();
    assert_eq!(rendered.len(), 12);
    let mut k: usize = 0;
    while k < rendered.len() {
        let expected = format!("{: >2} ", k);
        assert!(rendered[k].starts_with(&expected));
        k += 1;
    }
    assert!(rendered[9].starts_with(" 9 "));
    assert!(rendered[10].starts_with("10 "));
    assert!(rendered[11].starts_with("11 x"));
}

#[test]
fn escapes_text() {
    let lines = vec![vec![text("if a < b && c > d { \"x\" }")]];
    let mut diagnostics = Vec::new();
    let markup = render(&lines, &StyleTable::builtin(), &mut diagnostics);
    assert_eq!(
        markup,
        framed(" 0 if a &lt; b &amp;&amp; c &gt; d { &quot;x&quot; }\n")
    );
    assert!(diagnostics.is_empty());
}

#[test]
fn escapes_text_once() {
    let lines = vec![vec![text("&lt;")]];
    let mut diagnostics = Vec::new();
    let markup = render(&lines, &StyleTable::builtin(), &mut diagnostics);
    assert_eq!(markup, framed(" 0 &amp;lt;\n"));
    let body = &markup[OPEN.len() + 3..markup.len() - CLOSE.len() - 1];
    assert_eq!(unescape(body), "&lt;");
}

#[test]
fn text_that_looks_like_a_tag_opens_none() {
    let lines = vec![vec![text("</span><span>")]];
    let mut diagnostics = Vec::new();
    let markup = render(&lines, &StyleTable::builtin(), &mut diagnostics);
    assert_eq!(markup, framed(" 0 &lt;/span&gt;&lt;span&gt;\n"));
    assert_eq!(count(&markup, "<span"), 0);
    assert_eq!(count(&markup, "</span>"), 0);
}

#[test]
fn known_category_carries_its_color() {
    let mut styles = StyleTable::new(Fallback::Unstyled);
    styles.insert("keyword", "#123456");
    styles.insert("string", "rgb(1, 2, 3)");
    let lines = vec![vec![start("keyword"), text("k"), end("keyword"), start("string"), text("s"), end("string")]];
    let mut diagnostics = Vec::new();
    let markup = render(&lines, &styles, &mut diagnostics);
    assert_eq!(
        markup,
        framed(" 0 <span style=\"color: #123456;\">k</span><span style=\"color: rgb(1, 2, 3);\">s</span>\n")
    );
    assert!(diagnostics.is_empty());
}

#[test]
fn color_cannot_break_out_of_its_attribute() {
    let mut styles = StyleTable::new(Fallback::Unstyled);
    styles.insert("keyword", "red;\"><script>");
    let lines = vec![vec![start("keyword"), text("k"), end("keyword")]];
    let mut diagnostics = Vec::new();
    let markup = render(&lines, &styles, &mut diagnostics);
    assert_eq!(
        markup,
        framed(" 0 <span style=\"color: red;&quot;&gt;&lt;script&gt;;\">k</span>\n")
    );
    assert_eq!(unescape("red;&quot;&gt;&lt;script&gt;"), "red;\"><script>");
}

#[test]
fn unknown_category_is_reported_and_left_unstyled() {
    let lines = vec![vec![start("namespace"), text("std"), end("namespace"), text("::x")]];
    let mut diagnostics = Vec::new();
    let markup = render(&lines, &StyleTable::builtin(), &mut diagnostics);
    assert_eq!(markup, framed(" 0 <span>std</span>::x\n"));
    assert_eq!(
        diagnostics,
        vec![Diagnostic::UnknownCategory { line: 0, category: String::from("namespace") }]
    );
}

#[test]
fn unknown_category_takes_the_fallback_color() {
    let mut styles = StyleTable::builtin();
    styles.set_fallback(Fallback::Color(String::from("#cccccc")));
    let lines = vec![Vec::new(), vec![start("attribute"), text("#[test]"), end("attribute")]];
    let mut diagnostics = Vec::new();
    let markup = render(&lines, &styles, &mut diagnostics);
    assert_eq!(
        markup,
        framed(" 0 \n 1 <span style=\"color: #cccccc;\">#[test]</span>\n")
    );
    assert_eq!(
        diagnostics,
        vec![Diagnostic::UnknownCategory { line: 1, category: String::from("attribute") }]
    );
}

#[test]
fn end_without_open_span_is_passed_over_and_reported() {
    let lines = vec![vec![text("a"), end("keyword"), text("b")], vec![end("x"), start("keyword"), text("c"), end("keyword"), end("keyword")]];
    let mut diagnostics = Vec::new();
    let markup = render(&lines, &StyleTable::builtin(), &mut diagnostics);
    assert_eq!(
        markup,
        framed(" 0 ab\n 1 <span style=\"color: #ba8baf;\">c</span>\n")
    );
    assert_eq!(
        diagnostics,
        vec![
            Diagnostic::UnbalancedTokenStream { line: 0 },
            Diagnostic::UnbalancedTokenStream { line: 1 },
            Diagnostic::UnbalancedTokenStream { line: 1 },
        ]
    );
}

#[test]
fn spans_left_open_are_closed_after_the_last_line() {
    let lines = vec![vec![start("comment"), text("/* a")], vec![start("keyword"), text("fn")]];
    let mut diagnostics = Vec::new();
    let markup = render(&lines, &StyleTable::builtin(), &mut diagnostics);
    assert_eq!(
        markup,
        framed(" 0 <span style=\"color: #585858;\">/* a\n 1 <span style=\"color: #ba8baf;\">fn\n</span></span>")
    );
    assert!(diagnostics.is_empty());
}

#[test]
fn a_span_may_reach_over_lines() {
    let lines = vec![vec![start("comment"), text("/* a")], vec![text("b */"), end("comment"), text(";")]];
    let mut diagnostics = Vec::new();
    let markup = render(&lines, &StyleTable::builtin(), &mut diagnostics);
    assert_eq!(
        markup,
        framed(" 0 <span style=\"color: #585858;\">/* a\n 1 b */</span>;\n")
    );
    assert!(diagnostics.is_empty());
}

#[test]
fn nested_spans_close_innermost_first() {
    let lines = vec![vec![start("function"), text("f"), start("operator"), text("+"), end("operator"), text("g"), end("function")]];
    let mut diagnostics = Vec::new();
    let markup = render(&lines, &StyleTable::builtin(), &mut diagnostics);
    assert_eq!(
        markup,
        framed(" 0 <span style=\"color: #7cafc2;\">f<span style=\"color: #d8d8d8;\">+</span>g</span>\n")
    );
}

#[test]
fn opening_and_closing_tags_balance_whatever_the_events() {
    let streams: Vec<Vec<Vec<Token>>> = vec![
        vec![vec![start("keyword"), text("a"), end("keyword")]],
        vec![vec![end("a"), end("b"), start("keyword")], vec![start("x"), start("y"), end("y")]],
        vec![vec![start("a"), start("b"), start("c")], Vec::new(), vec![end("c")]],
        vec![vec![text("<"), end("q"), text(">"), start("string"), text("</span>")]],
    ];
    for lines in streams {
        let mut starts: usize = 0;
        for line in &lines {
            for token in line {
                if matches!(token, Token::Start(_)) {
                    starts += 1;
                }
            }
        }
        let mut diagnostics = Vec::new();
        let markup = render(&lines, &StyleTable::builtin(), &mut diagnostics);
        assert!(markup.starts_with(OPEN));
        assert!(markup.ends_with(CLOSE));
        let body = &markup[OPEN.len()..markup.len() - CLOSE.len()];
        assert_eq!(count(body, "<span"), starts);
        assert_eq!(count(body, "</span>"), starts);
        let mut depth: i64 = 0;
        let mut rest = body;
        while let Some(at) = rest.find('<') {
            if rest[at..].starts_with("</") {
                depth -= 1;
            } else {
                depth += 1;
            }
            assert!(depth >= 0);
            rest = &rest[at + 1..];
        }
        assert_eq!(depth, 0);
    }
}

#[test]
fn diagnostics_are_added_to_those_already_there() {
    let lines = vec![vec![start("nope"), end("nope"), end("nope")]];
    let mut diagnostics = vec![Diagnostic::UnbalancedTokenStream { line: 41 }];
    let markup = render(&lines, &StyleTable::builtin(), &mut diagnostics);
    assert_eq!(markup, framed(" 0 <span></span>\n"));
    assert_eq!(
        diagnostics,
        vec![
            Diagnostic::UnbalancedTokenStream { line: 41 },
            Diagnostic::UnknownCategory { line: 0, category: String::from("nope") },
            Diagnostic::UnbalancedTokenStream { line: 0 },
        ]
    );
}

#[test]
fn a_rendering_does_not_depend_on_an_earlier_one() {
    let styles = StyleTable::builtin();
    let open = vec![vec![start("keyword"), text("a")]];
    let lines = vec![vec![end("keyword"), text("b")]];
    let mut diagnostics = Vec::new();
    let first = render(&lines, &styles, &mut diagnostics);
    let _ = render(&open, &styles, &mut Vec::new());
    let mut again = Vec::new();
    let second = render(&lines, &styles, &mut again);
    assert_eq!(first, second);
    assert_eq!(first, framed(" 0 b\n"));
    assert_eq!(diagnostics, again);
}

#[test]
fn shown_text_is_the_numbered_listing_of_the_texts() {
    let lines = vec![
        vec![start("keyword"), text("if"), end("keyword"), text(" a "), start("operator"), text("<"), end("operator"), text(" b {")],
        vec![end("stray"), text("    x"), start("unknown"), text("&"), text("y")],
        Vec::new(),
        vec![text("}")],
    ];
    let mut styles = StyleTable::builtin();
    styles.insert("operator", "a>b\"c");
    let mut diagnostics = Vec::new();
    let markup = render(&lines, &styles, &mut diagnostics);
    let mut shown = String::new();
    let mut inside = false;
    for c in markup.chars() {
        if c == '<' {
            inside = true;
        } else if inside {
            if c == '>' {
                inside = false;
            }
        } else {
            shown.push(c);
        }
    }
    assert_eq!(shown, " 0 if a &lt; b {\n 1     x&amp;y\n 2 \n 3 }\n");
    assert_eq!(unescape(&shown), " 0 if a < b {\n 1     x&y\n 2 \n 3 }\n");
}
