//! The tokenizer: Rust source text to token events, by the `synoptic` crate's
//! highlighter for Rust.
//!
//! Which category a piece of text is given can differ from one run to the
//! next where two of the highlighter's rules match the same text, so nothing
//! here says what the categories are. What holds of every run is that the
//! events keep the text, line by line, and that the events of each line nest.

use crate::render::depth_after;
use crate::token::{line_texts, Token, TokenView};
use vstd::prelude::*;

verus! {

/// The lines of `s`: what stands before, between and behind its newlines.
pub open spec fn split_lines(s: Seq<char>) -> Seq<Seq<char>>
    decreases s.len(),
{
    if s.len() == 0 {
        seq![Seq::empty()]
    } else {
        let before = split_lines(s.drop_last());
        if s.last() == '\n' {
            before.push(Seq::empty())
        } else {
            before.drop_last().push(before.last().push(s.last()))
        }
    }
}

/// Whether the events of a line are text and spans that do not reach into
/// one another: a `Start` is met only where no span is open, an `End` only
/// where one is, and none is open after the last event.
pub open spec fn is_flat(events: Seq<TokenView>) -> bool {
    &&& forall|k: int|
        0 <= k < events.len() ==> {
            let open = depth_after(#[trigger] events.take(k), 0);
            match events[k] {
                TokenView::Start(_) => open == 0,
                TokenView::Text(_) => open <= 1,
                TokenView::End(_) => open == 1,
            }
        }
    &&& depth_after(events, 0) == 0
}

/// Whether `lines` can be what the tokenizer makes of `code`: one line of
/// events for each line of `code`, with that line as its text, and flat.
pub open spec fn is_tokenization(code: Seq<char>, lines: Seq<Seq<TokenView>>) -> bool {
    &&& line_texts(lines) == split_lines(code)
    &&& forall|i: int| 0 <= i < lines.len() ==> is_flat(#[trigger] lines[i])
}

/// Tokenizes Rust source. Wraps `synoptic::languages::rust`, which builds the
/// highlighter, and `synoptic::Highlighter::run`, which walks `code` once,
/// character by character: every newline ends a line of events and the rest
/// of `code` ends the last one; every other character goes into a `Text` of
/// the line it stands on. The text of a rule's match stands between a `Start`
/// and an `End` on one line; a match that spans lines is closed at each
/// line's end and opened again at the next line's start.
#[verifier::external_body]
pub(crate) fn tokenize_rust(code: &str) -> (lines: Vec<Vec<Token>>)
    ensures
        is_tokenization(code@, lines.deep_view()),
{
    synoptic::languages::rust().run(code).into_iter().map(
        |row| row.into_iter().map(
            |token| match token {
                synoptic::Token::Start(kind) => Token::Start(kind),
                synoptic::Token::Text(text) => Token::Text(text),
                synoptic::Token::End(kind) => Token::End(kind),
            },
        ).collect(),
    ).collect()
}

} // verus!
