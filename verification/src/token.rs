//! Token events: what a tokenizer hands to the renderer.

use vstd::prelude::*;

verus! {

/// One unit of a tokenizer's output. A line of source is an ordered sequence
/// of these.
#[derive(Clone, Debug, PartialEq, Eq)]
pub enum Token {
    /// A span of the given category opens.
    Start(String),
    /// Literal source text.
    Text(String),
    /// The innermost open span closes. The marker says what the tokenizer
    /// meant to close; the renderer does not read it.
    End(String),
}

/// A token event as a mathematical value.
pub enum TokenView {
    Start(Seq<char>),
    Text(Seq<char>),
    End(Seq<char>),
}

impl View for Token {
    type V = TokenView;

    open spec fn view(&self) -> TokenView {
        match self {
            Token::Start(category) => TokenView::Start(category@),
            Token::Text(content) => TokenView::Text(content@),
            Token::End(marker) => TokenView::End(marker@),
        }
    }
}

impl DeepView for Token {
    type V = TokenView;

    open spec fn deep_view(&self) -> TokenView {
        self@
    }
}

/// The text of a line of events: the contents of its `Text` events, one
/// after the other.
pub open spec fn line_text(events: Seq<TokenView>) -> Seq<char>
    decreases events.len(),
{
    if events.len() == 0 {
        Seq::empty()
    } else {
        match events.last() {
            TokenView::Text(content) => line_text(events.drop_last()) + content,
            _ => line_text(events.drop_last()),
        }
    }
}

/// The text of each line of events.
pub open spec fn line_texts(lines: Seq<Seq<TokenView>>) -> Seq<Seq<char>> {
    Seq::new(lines.len(), |i: int| line_text(lines[i]))
}

} // verus!
