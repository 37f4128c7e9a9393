use snippet_render::diagnostic::Diagnostic;
use snippet_render::escape::unescape;
use snippet_render::snippet::{generate_snippet, highlight_formatted, is_whitespace_char, trim, FormattingError};

const HEAD: &str = "<div style=\"background: #181818; overflow:auto;width:auto;padding:.2em .6em;\"><pre style=\"margin: 0; line-height: 125%\">";
const TAIL: &str = "</pre></div>";

fn strip_tags(markup: &str) -> String {
    let mut out = String::new();
    let mut inside = false;
    for c in markup.chars() {
        if c == '<' {
            inside = true;
        } else if c == '>' {
            inside = false;
        } else if !inside {
            out.push(c);
        }
    }
    out
}

#[test]
fn trim_removes_white_space_around() {
    assert_eq!(trim("  fn a() {}\n"), "fn a() {}");
    assert_eq!(trim("\t\r\n x y \u{3000}"), "x y");
    assert_eq!(trim("x"), "x");
    assert_eq!(trim(""), "");
    assert_eq!(trim(" \n\t "), "");
    assert_eq!(trim("\u{a0}é \u{2003}ü\u{85}"), "é \u{2003}ü");
}

#[test]
fn trim_agrees_with_the_standard_library() {
    let samples = vec![
        "",
        " ",
        "a",
        " a",
        "a ",
        "  a  b  ",
        "\n\nfn main() {\n}\n\n",
        "\u{1680}x\u{2000}\u{200a}",
        "\u{2028}\u{2029}y\u{202f}\u{205f}",
        "\u{200b}z\u{200b}",
        "\u{feff}w",
        "\u{b}\u{c}v\u{1c}",
        "你好 ",
    ];
    for sample in samples {
        assert_eq!(trim(sample), sample.trim());
    }
}

#[test]
fn white_space_is_what_the_standard_library_says() {
    let mut n: u32 = 0;
    while n < 0x3100 {
        if let Some(c) = char::from_u32(n) {
            assert_eq!(is_whitespace_char(c), c.is_whitespace());
        }
        n += 1;
    }
    assert!(!is_whitespace_char('\u{feff}'));
    assert!(!is_whitespace_char('\u{10ffff}'));
}

#[test]
fn snippet_of_one_line() {
    let mut diagnostics = Vec::new();
    let markup = generate_snippet("fn a(){}", &mut diagnostics);
    assert_eq!(
        markup,
        format!(
            "{} 0 <span style=\"color: #ba8baf;\">fn</span> <span style=\"color: #7cafc2;\">a</span>(){{}}\n{}",
            HEAD, TAIL
        )
    );
    assert!(diagnostics.is_empty());
}

#[test]
fn snippet_is_trimmed_before_it_is_tokenized() {
    let mut first = Vec::new();
    let mut second = Vec::new();
    assert_eq!(
        generate_snippet("\n  fn a(){}\n\n", &mut first),
        generate_snippet("fn a(){}", &mut second)
    );
}

#[test]
fn snippet_has_one_numbered_line_for_each_line_of_source() {
    let code = "fn main() {\n    let x = 1;\n\n    x\n}\n";
    let mut diagnostics = Vec::new();
    let markup = generate_snippet(code, &mut diagnostics);
    assert!(markup.starts_with(HEAD));
    assert!(markup.ends_with(TAIL));
    let body = &markup[HEAD.len()..markup.len() - TAIL.len()];
    let rendered: Vec<&str> = body.split_terminator('\n').collect();
    let source: Vec<&str> = code.trim().split('\n').collect();
    assert_eq!(rendered.len(), 5);
    assert_eq!(rendered.len(), source.len());
    let mut k: usize = 0;
    while k < rendered.len() {
        let prefix = format!("{: >2} ", k);
        assert!(rendered[k].starts_with(&prefix));
        assert_eq!(unescape(&strip_tags(&rendered[k][prefix.len()..])), source[k]);
        k += 1;
    }
}

#[test]
fn snippet_escapes_the_source() {
    let code = "if a < b && b > c { s = \"<&>\"; }";
    let mut diagnostics = Vec::new();
    let markup = generate_snippet(code, &mut diagnostics);
    let body = &markup[HEAD.len()..markup.len() - TAIL.len()];
    assert!(!strip_tags(body).contains('<'));
    assert!(body.contains("&lt;"));
    assert!(body.contains("&amp;"));
    assert_eq!(unescape(&strip_tags(&body[3..body.len() - 1])), code);
}

#[test]
fn snippet_tags_balance() {
    let code = "/* a\n b */\nfn f(x: &str) -> bool {\n    // c\n    x == \"y\\\"\" || true\n}";
    let mut diagnostics = Vec::new();
    let markup = generate_snippet(code, &mut diagnostics);
    let body = &markup[HEAD.len()..markup.len() - TAIL.len()];
    assert_eq!(body.matches("<span").count(), body.matches("</span>").count());
    assert!(body.matches("<span").count() >= 6);
    for line in body.split_terminator('\n') {
        assert_eq!(line.matches("<span").count(), line.matches("</span>").count());
    }
    for diagnostic in &diagnostics {
        assert!(matches!(diagnostic, Diagnostic::UnknownCategory { .. }));
    }
}

#[test]
fn snippet_reports_categories_without_a_color() {
    let mut diagnostics = Vec::new();
    let markup = generate_snippet("#[test]\nfn a() {}", &mut diagnostics);
    assert_eq!(
        markup,
        format!(
            "{} 0 <span>#[test]</span>\n 1 <span style=\"color: #ba8baf;\">fn</span> <span style=\"color: #7cafc2;\">a</span>() {{}}\n{}",
            HEAD, TAIL
        )
    );
    assert_eq!(
        diagnostics,
        vec![Diagnostic::UnknownCategory { line: 0, category: String::from("attribute") }]
    );
}

#[test]
fn formatted_source_is_rendered() {
    let mut diagnostics = Vec::new();
    let result = highlight_formatted("fn a ( ) { }", Ok(String::from("fn a() {}\n")), &mut diagnostics);
    let mut direct = Vec::new();
    assert_eq!(result, Ok(generate_snippet("fn a() {}\n", &mut direct)));
    assert_eq!(diagnostics, direct);
}

#[test]
fn formatter_failure_is_handed_on() {
    let mut diagnostics = vec![Diagnostic::UnbalancedTokenStream { line: 3 }];
    let result = highlight_formatted(
        "fn (",
        Err(String::from("expected identifier")),
        &mut diagnostics,
    );
    assert_eq!(
        result,
        Err(FormattingError {
            input: String::from("fn ("),
            reason: String::from("expected identifier"),
        })
    );
    assert_eq!(diagnostics, vec![Diagnostic::UnbalancedTokenStream { line: 3 }]);
}

#[test]
fn snippet_shows_the_source_line_by_line() {
    let samples = vec![
        "",
        "x",
        "fn main() {\n    println!(\"Hello, {}!\", name);\n}",
        "/* one\n   two\n   three */\nstruct A<'a> { b: &'a str, c: Vec<Vec<u8>> }",
        "let s = \"a\nb \\\" c\nd\";\nlet t = 1;",
        "let c = '<'; let d = '\\n'; let e = \"\\\\\";",
        "#[derive(Debug)]\n#![allow(x)]\npub enum E { A(u8), B }",
        "// comment with <tags> & \"quotes\"\nimpl<T> From<T> for X {}",
        "let 你好 = \"世界 ünï\"; // ß\n\tlet y = 1.5f32 + 2;",
        "a\r\nb\r\n\r\nc",
        "let open = \"never closed\nfn f() {}",
        "/* never closed\nfn f() {}",
        "x == y && a != b || c <= d && e >= f",
        "use std::collections::HashMap;\nlet m: HashMap<String, u8> = HashMap::new();",
        "\n\n\n",
        "a\n\n\nb",
    ];
    for code in samples {
        let mut diagnostics = Vec::new();
        let markup = generate_snippet(code, &mut diagnostics);
        assert!(markup.starts_with(HEAD));
        assert!(markup.ends_with(TAIL));
        let body = &markup[HEAD.len()..markup.len() - TAIL.len()];
        let mut expected = String::new();
        let mut k: usize = 0;
        for line in code.trim().split('\n') {
            expected.push_str(&format!("{: >2} {}\n", k, line));
            k += 1;
        }
        assert_eq!(unescape(&strip_tags(body)), expected);
        for line in body.split_terminator('\n') {
            assert_eq!(line.matches("<span").count(), line.matches("</span>").count());
        }
        for diagnostic in &diagnostics {
            assert!(matches!(diagnostic, Diagnostic::UnknownCategory { .. }));
        }
    }
}
