//! The renderer: from the token events of each line, and a style table, to
//! the markup of the whole snippet.
//!
//! A rendering keeps two things from one event to the next: the number of the
//! line it is at, and how many spans are open. Both begin at zero with every
//! call.

use crate::diagnostic::{Diagnostic, DiagnosticView};
use crate::escape::{escaped, push_char, push_escaped};
use crate::gutter::{line_prefix, push_line_prefix};
use crate::laws::{lemma_document_shows, lemma_document_well_nested};
use crate::markup::{is_well_nested, visible_text};
use crate::style::{Fallback, StyleTable, StyleTableView};
use crate::token::{line_texts, Token, TokenView};
use vstd::prelude::*;
use vstd::string::*;

verus! {

/// What opens the container of a snippet.
pub open spec fn container_open() -> Seq<char> {
    "<div style=\"background: #181818; overflow:auto;width:auto;padding:.2em .6em;\">"@
        + "<pre style=\"margin: 0; line-height: 125%\">"@
}

/// What closes the container of a snippet.
pub open spec fn container_close() -> Seq<char> {
    "</pre>"@ + "</div>"@
}

/// The tag that opens a span painted in `color`. The colour stands in an
/// attribute value, so it is escaped.
pub open spec fn styled_span_open(color: Seq<char>) -> Seq<char> {
    "<span style=\"color: "@ + escaped(color) + ";\">"@
}

/// The tag that opens a span of the given style, or without one.
pub open spec fn span_open(style: Option<Seq<char>>) -> Seq<char> {
    match style {
        Some(color) => styled_span_open(color),
        None => "<span>"@,
    }
}

/// The tag that closes a span.
pub open spec fn span_close() -> Seq<char> {
    "</span>"@
}

/// The number of open spans after `event`, where `depth` were open before it.
/// A span cannot be closed where none is open.
pub open spec fn depth_step(depth: nat, event: TokenView) -> nat {
    match event {
        TokenView::Start(_) => depth + 1,
        TokenView::Text(_) => depth,
        TokenView::End(_) => if depth > 0 {
            (depth - 1) as nat
        } else {
            0
        },
    }
}

/// The number of open spans after `events`, where `depth` were open before
/// them.
pub open spec fn depth_after(events: Seq<TokenView>, depth: nat) -> nat
    decreases events.len(),
{
    if events.len() == 0 {
        depth
    } else {
        depth_step(depth_after(events.drop_last(), depth), events.last())
    }
}

/// The markup of one event, met where `depth` spans are open.
pub open spec fn event_markup(event: TokenView, depth: nat, styles: StyleTableView) -> Seq<char> {
    match event {
        TokenView::Start(category) => span_open(styles.style_of(category)),
        TokenView::Text(content) => escaped(content),
        TokenView::End(_) => if depth > 0 {
            span_close()
        } else {
            Seq::empty()
        },
    }
}

/// What one event, met on line `line` where `depth` spans are open, gives
/// rise to in diagnostics.
pub open spec fn event_diagnostics(
    event: TokenView,
    line: nat,
    depth: nat,
    styles: StyleTableView,
) -> Seq<DiagnosticView> {
    match event {
        TokenView::Start(category) => if styles.knows(category) {
            Seq::empty()
        } else {
            seq![DiagnosticView::UnknownCategory { line, category }]
        },
        TokenView::Text(_) => Seq::empty(),
        TokenView::End(_) => if depth > 0 {
            Seq::empty()
        } else {
            seq![DiagnosticView::UnbalancedTokenStream { line }]
        },
    }
}

/// The markup of `events`, one after the other, the first met where `depth`
/// spans are open.
pub open spec fn events_markup(events: Seq<TokenView>, depth: nat, styles: StyleTableView) -> Seq<
    char,
>
    decreases events.len(),
{
    if events.len() == 0 {
        Seq::empty()
    } else {
        events_markup(events.drop_last(), depth, styles) + event_markup(
            events.last(),
            depth_after(events.drop_last(), depth),
            styles,
        )
    }
}

/// The diagnostics of `events`, all on line `line`, the first met where
/// `depth` spans are open.
pub open spec fn events_diagnostics(
    events: Seq<TokenView>,
    line: nat,
    depth: nat,
    styles: StyleTableView,
) -> Seq<DiagnosticView>
    decreases events.len(),
{
    if events.len() == 0 {
        Seq::empty()
    } else {
        events_diagnostics(events.drop_last(), line, depth, styles) + event_diagnostics(
            events.last(),
            line,
            depth_after(events.drop_last(), depth),
            styles,
        )
    }
}

/// One rendered line: its number, its events, and a newline.
pub open spec fn line_markup(
    index: nat,
    events: Seq<TokenView>,
    depth: nat,
    styles: StyleTableView,
) -> Seq<char> {
    line_prefix(index) + events_markup(events, depth, styles) + seq!['\n']
}

/// The number of spans that `lines` leave open.
pub open spec fn lines_depth(lines: Seq<Seq<TokenView>>) -> nat
    decreases lines.len(),
{
    if lines.len() == 0 {
        0
    } else {
        depth_after(lines.last(), lines_depth(lines.drop_last()))
    }
}

/// The rendered lines, one after the other, numbered from zero.
pub open spec fn lines_markup(lines: Seq<Seq<TokenView>>, styles: StyleTableView) -> Seq<char>
    decreases lines.len(),
{
    if lines.len() == 0 {
        Seq::empty()
    } else {
        lines_markup(lines.drop_last(), styles) + line_markup(
            (lines.len() - 1) as nat,
            lines.last(),
            lines_depth(lines.drop_last()),
            styles,
        )
    }
}

/// The diagnostics of `lines`, in the order of the events.
pub open spec fn lines_diagnostics(lines: Seq<Seq<TokenView>>, styles: StyleTableView) -> Seq<
    DiagnosticView,
>
    decreases lines.len(),
{
    if lines.len() == 0 {
        Seq::empty()
    } else {
        lines_diagnostics(lines.drop_last(), styles) + events_diagnostics(
            lines.last(),
            (lines.len() - 1) as nat,
            lines_depth(lines.drop_last()),
            styles,
        )
    }
}

/// `count` closing tags.
pub open spec fn closers(count: nat) -> Seq<char>
    decreases count,
{
    if count == 0 {
        Seq::empty()
    } else {
        closers((count - 1) as nat) + span_close()
    }
}

/// What stands inside the container: the rendered lines, and then a closing
/// tag for each span that the events left open.
pub open spec fn body(lines: Seq<Seq<TokenView>>, styles: StyleTableView) -> Seq<char> {
    lines_markup(lines, styles) + closers(lines_depth(lines))
}

/// The listing of `texts`: each text behind its number, counted from zero,
/// and ended by a newline.
pub open spec fn listing(texts: Seq<Seq<char>>) -> Seq<char>
    decreases texts.len(),
{
    if texts.len() == 0 {
        Seq::empty()
    } else {
        listing(texts.drop_last()) + line_prefix((texts.len() - 1) as nat) + texts.last()
            + seq!['\n']
    }
}

/// The markup of a snippet.
pub open spec fn document(lines: Seq<Seq<TokenView>>, styles: StyleTableView) -> Seq<char> {
    container_open() + body(lines, styles) + container_close()
}

/// Appends the tag that opens a span of the given style.
fn push_span_open(out: &mut String, style: Option<&String>)
    ensures
        final(out)@ == old(out)@ + span_open(
            match style {
                Some(color) => Some(color@),
                None => None,
            },
        ),
{
    match style {
        Some(color) => {
            out.append("<span style=\"color: ");
            push_escaped(out, color.as_str());
            out.append(";\">");
            assert(out@ =~= old(out)@ + styled_span_open(color@));
        },
        None => {
            out.append("<span>");
        },
    }
}

/// Renders one event, met on line `line` where `depth` spans are open, and
/// returns the number of spans open after it.
///
/// The number is kept in 128 bits: no more than `usize::MAX` lines of no more
/// than `usize::MAX` events each can be rendered, so it cannot overflow.
fn render_event(
    out: &mut String,
    diagnostics: &mut Vec<Diagnostic>,
    styles: &StyleTable,
    event: &Token,
    line: usize,
    depth: u128,
) -> (after: u128)
    requires
        depth < u128::MAX,
    ensures
        final(out)@ == old(out)@ + event_markup(event@, depth as nat, styles@),
        final(diagnostics).deep_view() == old(diagnostics).deep_view() + event_diagnostics(
            event@,
            line as nat,
            depth as nat,
            styles@,
        ),
        after == depth_step(depth as nat, event@),
{
    let ghost reported = diagnostics.deep_view();
    let after: u128 = match event {
        Token::Start(category) => {
            let style = match styles.get(category.as_str()) {
                Some(color) => Some(color),
                None => {
                    diagnostics.push(
                        Diagnostic::UnknownCategory { line, category: category.clone() },
                    );
                    match styles.fallback() {
                        Fallback::Unstyled => None,
                        Fallback::Color(color) => Some(color),
                    }
                },
            };
            push_span_open(out, style);
            depth + 1
        },
        Token::Text(content) => {
            push_escaped(out, content.as_str());
            depth
        },
        Token::End(_) => {
            if depth > 0 {
                out.append("</span>");
                depth - 1
            } else {
                diagnostics.push(Diagnostic::UnbalancedTokenStream { line });
                assert(out@ =~= old(out)@ + event_markup(event@, depth as nat, styles@));
                0
            }
        },
    };
    assert(diagnostics.deep_view() =~= reported + event_diagnostics(
        event@,
        line as nat,
        depth as nat,
        styles@,
    ));
    after
}

/// Renders line `index`, met where `depth` spans are open, and returns the
/// number of spans open after it.
fn render_line(
    out: &mut String,
    diagnostics: &mut Vec<Diagnostic>,
    styles: &StyleTable,
    events: &Vec<Token>,
    index: usize,
    depth: u128,
) -> (after: u128)
    requires
        depth + events.len() < u128::MAX,
    ensures
        final(out)@ == old(out)@ + line_markup(
            index as nat,
            events.deep_view(),
            depth as nat,
            styles@,
        ),
        final(diagnostics).deep_view() == old(diagnostics).deep_view() + events_diagnostics(
            events.deep_view(),
            index as nat,
            depth as nat,
            styles@,
        ),
        after == depth_after(events.deep_view(), depth as nat),
        after <= depth + events.len(),
{
    let ghost written = out@;
    let ghost reported = diagnostics.deep_view();
    let ghost all = events.deep_view();
    push_line_prefix(out, index);
    let mut open: u128 = depth;
    let mut j: usize = 0;
    assert(all.take(0) =~= Seq::<TokenView>::empty());
    assert(out@ =~= written + line_prefix(index as nat) + events_markup(
        all.take(0),
        depth as nat,
        styles@,
    ));
    assert(diagnostics.deep_view() =~= reported + events_diagnostics(
        all.take(0),
        index as nat,
        depth as nat,
        styles@,
    ));
    while j < events.len()
        invariant
            j <= events.len(),
            all == events.deep_view(),
            depth + events.len() < u128::MAX,
            open <= depth + j,
            open == depth_after(all.take(j as int), depth as nat),
            out@ == written + line_prefix(index as nat) + events_markup(
                all.take(j as int),
                depth as nat,
                styles@,
            ),
            diagnostics.deep_view() == reported + events_diagnostics(
                all.take(j as int),
                index as nat,
                depth as nat,
                styles@,
            ),
        decreases events.len() - j,
    {
        let ghost done = all.take(j as int);
        let ghost next = all.take(j + 1);
        assert(next.drop_last() =~= done);
        assert(next.last() == events@[j as int]@);
        open = render_event(out, diagnostics, styles, &events[j], index, open);
        assert(out@ =~= written + line_prefix(index as nat) + events_markup(
            next,
            depth as nat,
            styles@,
        ));
        assert(diagnostics.deep_view() =~= reported + events_diagnostics(
            next,
            index as nat,
            depth as nat,
            styles@,
        ));
        j += 1;
    }
    assert(all.take(events.len() as int) =~= all);
    push_char(out, '\n');
    assert(out@ =~= written + line_markup(index as nat, all, depth as nat, styles@));
    open
}

/// Renders the token events of a snippet, line by line, as markup.
///
/// Every line begins with its number, counted from zero. A `Start` opens a
/// span in the colour that `styles` gives its category; a category without
/// an entry is reported and given the table's fallback treatment. A `Text` is
/// written escaped. An `End` closes the innermost open span; where none is
/// open it is reported and passed over. Spans still open after the last line
/// are closed there. The whole stands in one container.
///
/// What is reported is added to `diagnostics`, in the order of the events.
/// Whatever the events and the styles, the tags of the markup nest, and the
/// text it shows is the numbered listing of the lines' texts, escaped.
pub fn render(
    lines: &Vec<Vec<Token>>,
    styles: &StyleTable,
    diagnostics: &mut Vec<Diagnostic>,
) -> (markup: String)
    ensures
        markup@ == document(lines.deep_view(), styles@),
        is_well_nested(markup@),
        visible_text(markup@) == escaped(listing(line_texts(lines.deep_view()))),
        final(diagnostics).deep_view() == old(diagnostics).deep_view() + lines_diagnostics(
            lines.deep_view(),
            styles@,
        ),
{
    let ghost reported = diagnostics.deep_view();
    let ghost all = lines.deep_view();
    let mut out = String::new();
    out.append("<div style=\"background: #181818; overflow:auto;width:auto;padding:.2em .6em;\">");
    out.append("<pre style=\"margin: 0; line-height: 125%\">");
    let mut open: u128 = 0;
    let mut i: usize = 0;
    assert(all.take(0) =~= Seq::<Seq<TokenView>>::empty());
    assert(out@ =~= container_open() + lines_markup(all.take(0), styles@));
    assert(diagnostics.deep_view() =~= reported + lines_diagnostics(all.take(0), styles@));
    while i < lines.len()
        invariant
            i <= lines.len(),
            all == lines.deep_view(),
            open <= i * usize::MAX,
            open == lines_depth(all.take(i as int)),
            out@ == container_open() + lines_markup(all.take(i as int), styles@),
            diagnostics.deep_view() == reported + lines_diagnostics(all.take(i as int), styles@),
        decreases lines.len() - i,
    {
        let ghost next = all.take(i + 1);
        assert(next.drop_last() =~= all.take(i as int));
        assert(next.last() == lines@[i as int].deep_view());
        assert(open + lines[i as int].len() < u128::MAX && (i + 1) * usize::MAX == i * usize::MAX
            + usize::MAX) by (nonlinear_arith)
            requires
                open <= i * usize::MAX,
                i < usize::MAX,
                lines[i as int].len() <= usize::MAX,
                usize::MAX <= 0xffff_ffff_ffff_ffff,
                u128::MAX == 0xffff_ffff_ffff_ffff_ffff_ffff_ffff_ffff,
        ;
        open = render_line(&mut out, diagnostics, styles, &lines[i], i, open);
        assert(out@ =~= container_open() + lines_markup(next, styles@));
        assert(diagnostics.deep_view() =~= reported + lines_diagnostics(next, styles@));
        i += 1;
    }
    assert(all.take(lines.len() as int) =~= all);
    let ghost left = open;
    let ghost lined = out@;
    assert(out@ =~= lined + closers(0));
    while open > 0
        invariant
            open <= left,
            out@ == lined + closers((left - open) as nat),
        decreases open,
    {
        out.append("</span>");
        open -= 1;
        assert(out@ =~= lined + closers((left - open) as nat));
    }
    out.append("</pre>");
    out.append("</div>");
    assert(out@ =~= document(all, styles@));
    proof {
        lemma_document_well_nested(all, styles@);
        lemma_document_shows(all, styles@);
    }
    out
}

} // verus!
