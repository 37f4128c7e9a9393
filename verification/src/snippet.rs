//! From formatted Rust source to the markup of a snippet: the source is
//! trimmed, tokenized and rendered with the built-in style table.

use crate::diagnostic::Diagnostic;
use crate::escape::{chars_of, lemma_unescaped_escaped, unescaped};
use crate::laws::{lemma_well_nested_stream_diagnostics, lines_stray_ends, stray_ends};
use crate::markup::{is_well_nested, visible_text};
use crate::render::{document, lines_depth, lines_diagnostics, listing, render};
use crate::style::{builtin_styles, StyleTable};
use crate::token::TokenView;
use crate::tokenizer::{is_flat, is_tokenization, split_lines, tokenize_rust};
use vstd::prelude::*;
use vstd::string::*;

verus! {

/// Whether `c` is white space: a character with the Unicode property
/// `White_Space`.
pub open spec fn is_whitespace(c: char) -> bool {
    let n = c as u32;
    ||| 0x09 <= n <= 0x0D
    ||| n == 0x20
    ||| n == 0x85
    ||| n == 0xA0
    ||| n == 0x1680
    ||| 0x2000 <= n <= 0x200A
    ||| n == 0x2028
    ||| n == 0x2029
    ||| n == 0x202F
    ||| n == 0x205F
    ||| n == 0x3000
}

/// `s` without the white space it begins with.
pub open spec fn trimmed_start(s: Seq<char>) -> Seq<char>
    decreases s.len(),
{
    if s.len() > 0 && is_whitespace(s[0]) {
        trimmed_start(s.drop_first())
    } else {
        s
    }
}

/// `s` without the white space it ends with.
pub open spec fn trimmed_end(s: Seq<char>) -> Seq<char>
    decreases s.len(),
{
    if s.len() > 0 && is_whitespace(s.last()) {
        trimmed_end(s.drop_last())
    } else {
        s
    }
}

/// `s` without the white space around it.
pub open spec fn trimmed(s: Seq<char>) -> Seq<char> {
    trimmed_end(trimmed_start(s))
}

/// Whether `c` is white space.
pub fn is_whitespace_char(c: char) -> (white: bool)
    ensures
        white == is_whitespace(c),
{
    let n: u32 = c as u32;
    (0x09 <= n && n <= 0x0D) || n == 0x20 || n == 0x85 || n == 0xA0 || n == 0x1680 || (0x2000 <= n
        && n <= 0x200A) || n == 0x2028 || n == 0x2029 || n == 0x202F || n == 0x205F || n == 0x3000
}

/// `text` without the white space around it.
pub fn trim(text: &str) -> (inner: &str)
    ensures
        inner@ == trimmed(text@),
{
    let chars = chars_of(text);
    let n: usize = chars.len();
    let mut from: usize = 0;
    assert(chars@.skip(0) =~= chars@);
    while from < n && is_whitespace_char(chars[from])
        invariant
            n == chars.len(),
            from <= n,
            trimmed_start(chars@) == trimmed_start(chars@.skip(from as int)),
        decreases n - from,
    {
        assert(chars@.skip(from as int).drop_first() =~= chars@.skip(from + 1));
        from += 1;
    }
    let ghost rest = chars@.skip(from as int);
    assert(trimmed_start(chars@) == rest);
    let mut to: usize = n;
    assert(chars@.subrange(from as int, n as int) =~= rest);
    while to > from && is_whitespace_char(chars[to - 1])
        invariant
            n == chars.len(),
            from <= to <= n,
            trimmed_end(rest) == trimmed_end(chars@.subrange(from as int, to as int)),
        decreases to - from,
    {
        assert(chars@.subrange(from as int, to as int).drop_last() =~= chars@.subrange(
            from as int,
            to - 1,
        ));
        to -= 1;
    }
    assert(trimmed_end(rest) == chars@.subrange(from as int, to as int));
    text.substring_char(from, to)
}

/// A line of flat events, met where no span is open, leaves none open and
/// holds no `End` without a span to close.
pub proof fn lemma_flat_line(events: Seq<TokenView>, k: int)
    requires
        is_flat(events),
        0 <= k <= events.len(),
    ensures
        stray_ends(events.take(k), 0) == 0,
    decreases k,
{
    if k > 0 {
        lemma_flat_line(events, k - 1);
        let upto = events.take(k);
        assert(upto.drop_last() =~= events.take(k - 1));
        assert(upto.last() == events[k - 1]);
    }
}

/// Lines of flat events nest.
pub proof fn lemma_flat_lines(lines: Seq<Seq<TokenView>>)
    requires
        forall|i: int| 0 <= i < lines.len() ==> is_flat(#[trigger] lines[i]),
    ensures
        lines_stray_ends(lines) == 0,
        lines_depth(lines) == 0,
    decreases lines.len(),
{
    if lines.len() > 0 {
        let front = lines.drop_last();
        assert forall|i: int| 0 <= i < front.len() implies is_flat(#[trigger] front[i]) by {
            assert(front[i] == lines[i]);
        }
        lemma_flat_lines(front);
        let last = lines.last();
        assert(is_flat(last));
        lemma_flat_line(last, last.len() as int);
        assert(last.take(last.len() as int) =~= last);
    }
}

/// The markup of a snippet of formatted Rust source: `code` is trimmed,
/// tokenized, and rendered with the built-in style table.
///
/// The tokenizer settles the categories, so the markup is that of some
/// tokenization of the trimmed source. Whichever it was, the markup is well
/// nested, the text it shows is the numbered listing of the trimmed source,
/// escaped, and nothing but unknown categories is reported, each added to
/// `diagnostics`.
pub fn generate_snippet(code: &str, diagnostics: &mut Vec<Diagnostic>) -> (markup: String)
    ensures
        exists|lines: Seq<Seq<TokenView>>|
            {
                &&& #[trigger] is_tokenization(trimmed(code@), lines)
                &&& markup@ == document(lines, builtin_styles())
                &&& final(diagnostics).deep_view() == old(diagnostics).deep_view()
                    + lines_diagnostics(lines, builtin_styles())
            },
        is_well_nested(markup@),
        unescaped(visible_text(markup@)) == listing(split_lines(trimmed(code@))),
        old(diagnostics)@.len() <= final(diagnostics)@.len(),
        forall|i: int|
            old(diagnostics)@.len() <= i < final(diagnostics)@.len()
                ==> #[trigger] final(diagnostics)@[i] is UnknownCategory,
{
    let ghost reported = diagnostics.deep_view();
    let lines = tokenize_rust(trim(code));
    let styles = StyleTable::builtin();
    let markup = render(&lines, &styles, diagnostics);
    proof {
        let events = lines.deep_view();
        let added = lines_diagnostics(events, builtin_styles());
        assert(is_tokenization(trimmed(code@), events));
        lemma_flat_lines(events);
        lemma_unescaped_escaped(listing(split_lines(trimmed(code@))));
        lemma_well_nested_stream_diagnostics(events, builtin_styles());
        assert(diagnostics.deep_view().len() == reported.len() + added.len());
        assert forall|i: int| old(diagnostics)@.len() <= i < diagnostics@.len() implies (
            #[trigger] diagnostics@[i]
        ) is UnknownCategory by {
            assert(diagnostics.deep_view()[i] == added[i - reported.len()]);
            assert(added[i - reported.len()] is UnknownCategory);
        }
    }
    markup
}

/// The formatter turned the source down: it is not valid Rust. Nothing was
/// tokenized or rendered.
#[derive(Clone, Debug, PartialEq, Eq)]
pub struct FormattingError {
    /// The source as it was handed to the formatter.
    pub input: String,
    /// What the formatter said of it.
    pub reason: String,
}

/// A formatting error as a mathematical value.
pub struct FormattingErrorView {
    pub input: Seq<char>,
    pub reason: Seq<char>,
}

impl View for FormattingError {
    type V = FormattingErrorView;

    open spec fn view(&self) -> FormattingErrorView {
        FormattingErrorView { input: self.input@, reason: self.reason@ }
    }
}

/// The markup of a snippet, from what the formatter made of `input`: the
/// formatted source, or the reason why there is none.
///
/// Where the formatter failed, so does this, with the input and the reason,
/// and nothing is reported. Where it gave formatted source, the result is
/// that of `generate_snippet` on it.
pub fn highlight_formatted(
    input: &str,
    formatted: Result<String, String>,
    diagnostics: &mut Vec<Diagnostic>,
) -> (result: Result<String, FormattingError>)
    ensures
        match formatted {
            Err(reason) => {
                &&& result matches Err(error)
                &&& error@ == (FormattingErrorView { input: input@, reason: reason@ })
                &&& final(diagnostics)@ == old(diagnostics)@
            },
            Ok(code) => {
                &&& result matches Ok(markup)
                &&& exists|lines: Seq<Seq<TokenView>>|
                    {
                        &&& #[trigger] is_tokenization(trimmed(code@), lines)
                        &&& markup@ == document(lines, builtin_styles())
                        &&& final(diagnostics).deep_view() == old(diagnostics).deep_view()
                            + lines_diagnostics(lines, builtin_styles())
                    }
                &&& is_well_nested(markup@)
                &&& unescaped(visible_text(markup@)) == listing(split_lines(trimmed(code@)))
            },
        },
{
    match formatted {
        Err(reason) => Err(FormattingError { input: input.to_owned(), reason }),
        Ok(code) => Ok(generate_snippet(code.as_str(), diagnostics)),
    }
}

} // verus!
