//! What holds of every rendering.

use crate::diagnostic::DiagnosticView;
use crate::escape::{
    escaped, is_plain, is_special, lemma_escaped_concat, lemma_escaped_is_inert, lemma_escaped_plain,
    lemma_unescaped_escaped, unescaped,
};
use crate::gutter::{
    decimal, decimal_value, lemma_decimal_digits, lemma_decimal_value, line_prefix, right_aligned,
    spaces, GUTTER_WIDTH,
};
use crate::markup::{
    closed, closing_tags, is_closing_tag, is_opening_tag, is_tag, is_tagless, is_well_nested,
    lemma_closing_tag_reads, lemma_opening_tag_reads, lemma_reads_concat, lemma_shows_concat,
    lemma_tag_shows, lemma_tagless_reads, lemma_tagless_shows, opened, opening_tags, reads_as,
    shows, visible_text,
};
use crate::render::{
    body, closers, container_close, container_open, depth_after, depth_step, document,
    event_diagnostics, event_markup, events_diagnostics, events_markup, line_markup, lines_depth,
    lines_diagnostics, lines_markup, listing, span_close, span_open, styled_span_open,
};
use crate::style::StyleTableView;
use crate::token::{line_text, line_texts, TokenView};
use vstd::prelude::*;

verus! {

/// The tag that opens a span is one opening tag, whatever its colour.
pub proof fn lemma_span_open_shape(style: Option<Seq<char>>)
    ensures
        is_opening_tag(span_open(style)),
        is_tag(span_open(style)),
{
    match style {
        Some(color) => {
            reveal_strlit("<span style=\"color: ");
            reveal_strlit(";\">");
            lemma_escaped_is_inert(color);
            let head = "<span style=\"color: "@;
            let mid = escaped(color);
            let tail = ";\">"@;
            let tag = styled_span_open(color);
            assert(tag[0] == head[0]);
            assert(tag[1] == head[1]);
            assert forall|i: int| 1 <= i < tag.len() implies #[trigger] tag[i] != '<' by {
                if i < head.len() {
                    assert(tag[i] == head[i]);
                } else if i < head.len() + mid.len() {
                    assert(tag[i] == mid[i - head.len()]);
                } else {
                    assert(tag[i] == tail[i - head.len() - mid.len()]);
                }
            }
            assert forall|i: int| 0 <= i < tag.len() - 1 implies #[trigger] tag[i] != '>' by {
                if i < head.len() {
                    assert(tag[i] == head[i]);
                } else if i < head.len() + mid.len() {
                    assert(tag[i] == mid[i - head.len()]);
                } else {
                    assert(tag[i] == tail[i - head.len() - mid.len()]);
                }
            }
            assert(tag.last() == tail[2]);
        },
        None => {
            reveal_strlit("<span>");
        },
    }
}

/// The tag that closes a span is one closing tag.
pub proof fn lemma_span_close_shape()
    ensures
        is_closing_tag(span_close()),
        is_tag(span_close()),
{
    reveal_strlit("</span>");
}

/// The container opens two tags and closes two, and shows nothing of its
/// own.
pub proof fn lemma_container_shape()
    ensures
        reads_as(container_open(), 0, 2, 0),
        reads_as(container_close(), 2, 0, 2),
        shows(container_open(), Seq::empty()),
        shows(container_close(), Seq::empty()),
{
    let div = "<div style=\"background: #181818; overflow:auto;width:auto;padding:.2em .6em;\">"@;
    let pre = "<pre style=\"margin: 0; line-height: 125%\">"@;
    reveal_strlit("<div style=\"background: #181818; overflow:auto;width:auto;padding:.2em .6em;\">");
    reveal_strlit("<pre style=\"margin: 0; line-height: 125%\">");
    reveal_strlit("</pre>");
    reveal_strlit("</div>");
    assert(is_opening_tag(div));
    assert(is_opening_tag(pre));
    lemma_opening_tag_reads(div, 0);
    lemma_opening_tag_reads(pre, 1);
    lemma_reads_concat(div, pre, 0, 1, 0, 1, 0);
    lemma_closing_tag_reads("</pre>"@, 2);
    lemma_closing_tag_reads("</div>"@, 1);
    lemma_reads_concat("</pre>"@, "</div>"@, 2, 0, 1, 0, 1);
    let nothing = Seq::<char>::empty();
    assert(is_tag(div));
    assert(is_tag(pre));
    lemma_tag_shows(div);
    lemma_tag_shows(pre);
    lemma_tag_shows("</pre>"@);
    lemma_tag_shows("</div>"@);
    lemma_shows_concat(div, pre, nothing, nothing);
    lemma_shows_concat("</pre>"@, "</div>"@, nothing, nothing);
    assert(nothing + nothing =~= nothing);
}

/// The number of `Start` events among `events`.
pub open spec fn starts(events: Seq<TokenView>) -> nat
    decreases events.len(),
{
    if events.len() == 0 {
        0
    } else if events.last() is Start {
        starts(events.drop_last()) + 1
    } else {
        starts(events.drop_last())
    }
}

/// The number of `End` events among `events`.
pub open spec fn ends(events: Seq<TokenView>) -> nat
    decreases events.len(),
{
    if events.len() == 0 {
        0
    } else if events.last() is End {
        ends(events.drop_last()) + 1
    } else {
        ends(events.drop_last())
    }
}

/// The number of `End` events among `events` that are met where no span is
/// open, the first event being met where `depth` spans are open.
pub open spec fn stray_ends(events: Seq<TokenView>, depth: nat) -> nat
    decreases events.len(),
{
    if events.len() == 0 {
        0
    } else if events.last() is End && depth_after(events.drop_last(), depth) == 0 {
        stray_ends(events.drop_last(), depth) + 1
    } else {
        stray_ends(events.drop_last(), depth)
    }
}

/// The number of `Start` events in `lines`.
pub open spec fn lines_starts(lines: Seq<Seq<TokenView>>) -> nat
    decreases lines.len(),
{
    if lines.len() == 0 {
        0
    } else {
        lines_starts(lines.drop_last()) + starts(lines.last())
    }
}

/// The number of `End` events in `lines`.
pub open spec fn lines_ends(lines: Seq<Seq<TokenView>>) -> nat
    decreases lines.len(),
{
    if lines.len() == 0 {
        0
    } else {
        lines_ends(lines.drop_last()) + ends(lines.last())
    }
}

/// The number of `End` events in `lines` that are met where no span is open.
pub open spec fn lines_stray_ends(lines: Seq<Seq<TokenView>>) -> nat
    decreases lines.len(),
{
    if lines.len() == 0 {
        0
    } else {
        lines_stray_ends(lines.drop_last()) + stray_ends(
            lines.last(),
            lines_depth(lines.drop_last()),
        )
    }
}

/// Whether the events of `lines` nest: every `End` finds a span open, and no
/// span is left open after the last line.
pub open spec fn is_well_nested_stream(lines: Seq<Seq<TokenView>>) -> bool {
    lines_stray_ends(lines) == 0 && lines_depth(lines) == 0
}

/// The markup of one event opens at most one tag and closes at most one, and
/// closes none where no span is open.
pub proof fn lemma_event_reads(event: TokenView, depth: nat, styles: StyleTableView)
    ensures
        reads_as(
            event_markup(event, depth, styles),
            depth as int,
            if event is Start {
                1
            } else {
                0
            },
            if event is End && depth > 0 {
                1
            } else {
                0
            },
        ),
{
    match event {
        TokenView::Start(category) => {
            lemma_span_open_shape(styles.style_of(category));
            lemma_opening_tag_reads(event_markup(event, depth, styles), depth as int);
        },
        TokenView::Text(content) => {
            lemma_escaped_is_inert(content);
            lemma_tagless_reads(escaped(content), depth as int);
        },
        TokenView::End(_) => {
            if depth > 0 {
                lemma_span_close_shape();
                lemma_closing_tag_reads(span_close(), depth as int);
            } else {
                lemma_tagless_reads(Seq::<char>::empty(), depth as int);
            }
        },
    }
}

/// The markup of a run of events opens one tag for each `Start` and closes
/// one for each `End` that finds a span open.
pub proof fn lemma_events_reads(events: Seq<TokenView>, depth: nat, styles: StyleTableView)
    ensures
        reads_as(
            events_markup(events, depth, styles),
            depth as int,
            starts(events),
            (ends(events) - stray_ends(events, depth)) as nat,
        ),
        stray_ends(events, depth) <= ends(events),
        depth_after(events, depth) == depth + starts(events) - ends(events) + stray_ends(
            events,
            depth,
        ),
    decreases events.len(),
{
    if events.len() == 0 {
        lemma_tagless_reads(Seq::<char>::empty(), depth as int);
    } else {
        let front = events.drop_last();
        let mid = depth_after(front, depth);
        lemma_events_reads(front, depth, styles);
        lemma_event_reads(events.last(), mid, styles);
        lemma_reads_concat(
            events_markup(front, depth, styles),
            event_markup(events.last(), mid, styles),
            depth as int,
            starts(front),
            (ends(front) - stray_ends(front, depth)) as nat,
            if events.last() is Start {
                1
            } else {
                0
            },
            if events.last() is End && mid > 0 {
                1
            } else {
                0
            },
        );
    }
}

/// The prefix of a line holds no `<`.
pub proof fn lemma_line_prefix_tagless(index: nat)
    ensures
        is_tagless(line_prefix(index)),
{
    lemma_decimal_digits(index);
    let digits = decimal(index);
    let field = right_aligned(digits, GUTTER_WIDTH as nat);
    assert forall|i: int| 0 <= i < field.len() implies #[trigger] field[i] != '<' by {
        if digits.len() >= GUTTER_WIDTH {
            assert('0' <= digits[i] <= '9');
        } else {
            let pad = spaces((GUTTER_WIDTH - digits.len()) as nat);
            if i < pad.len() {
                assert(field[i] == pad[i]);
            } else {
                assert(field[i] == digits[i - pad.len()]);
                assert('0' <= digits[i - pad.len()] <= '9');
            }
        }
    }
    let prefix = line_prefix(index);
    assert forall|i: int| 0 <= i < prefix.len() implies #[trigger] prefix[i] != '<' by {
        if i < field.len() {
            assert(prefix[i] == field[i]);
        }
    }
}

/// A rendered line opens and closes what its events open and close.
pub proof fn lemma_line_reads(
    index: nat,
    events: Seq<TokenView>,
    depth: nat,
    styles: StyleTableView,
)
    ensures
        reads_as(
            line_markup(index, events, depth, styles),
            depth as int,
            starts(events),
            (ends(events) - stray_ends(events, depth)) as nat,
        ),
{
    let closes = (ends(events) - stray_ends(events, depth)) as nat;
    lemma_events_reads(events, depth, styles);
    lemma_line_prefix_tagless(index);
    lemma_tagless_reads(line_prefix(index), depth as int);
    lemma_reads_concat(
        line_prefix(index),
        events_markup(events, depth, styles),
        depth as int,
        0,
        0,
        starts(events),
        closes,
    );
    let newline = seq!['\n'];
    assert(is_tagless(newline));
    lemma_tagless_reads(newline, depth + starts(events) - closes);
    lemma_reads_concat(
        line_prefix(index) + events_markup(events, depth, styles),
        newline,
        depth as int,
        starts(events),
        closes,
        0,
        0,
    );
}

/// The rendered lines open one tag for each `Start` and close one for each
/// `End` that finds a span open.
pub proof fn lemma_lines_read(lines: Seq<Seq<TokenView>>, styles: StyleTableView)
    ensures
        reads_as(
            lines_markup(lines, styles),
            0,
            lines_starts(lines),
            (lines_ends(lines) - lines_stray_ends(lines)) as nat,
        ),
        lines_stray_ends(lines) <= lines_ends(lines),
        lines_depth(lines) == lines_starts(lines) - lines_ends(lines) + lines_stray_ends(lines),
    decreases lines.len(),
{
    if lines.len() == 0 {
        lemma_tagless_reads(Seq::<char>::empty(), 0);
    } else {
        let front = lines.drop_last();
        let depth = lines_depth(front);
        lemma_lines_read(front, styles);
        lemma_events_reads(lines.last(), depth, styles);
        lemma_line_reads((lines.len() - 1) as nat, lines.last(), depth, styles);
        lemma_reads_concat(
            lines_markup(front, styles),
            line_markup((lines.len() - 1) as nat, lines.last(), depth, styles),
            0,
            lines_starts(front),
            (lines_ends(front) - lines_stray_ends(front)) as nat,
            starts(lines.last()),
            (ends(lines.last()) - stray_ends(lines.last(), depth)) as nat,
        );
    }
}

/// `count` closing tags close `count` tags.
pub proof fn lemma_closers_read(count: nat, depth: int)
    requires
        depth >= count,
    ensures
        reads_as(closers(count), depth, 0, count),
    decreases count,
{
    if count == 0 {
        lemma_tagless_reads(Seq::<char>::empty(), depth);
    } else {
        lemma_closers_read((count - 1) as nat, depth);
        lemma_span_close_shape();
        lemma_closing_tag_reads(span_close(), depth - (count - 1));
        lemma_reads_concat(
            closers((count - 1) as nat),
            span_close(),
            depth,
            0,
            (count - 1) as nat,
            0,
            1,
        );
    }
}

/// Whatever the events, what stands inside the container is well nested: it
/// opens one span for each `Start`, closes as many, and never closes a span
/// that is not open.
pub proof fn lemma_body_well_nested(lines: Seq<Seq<TokenView>>, styles: StyleTableView)
    ensures
        is_well_nested(body(lines, styles)),
        opening_tags(body(lines, styles)) == lines_starts(lines),
        closing_tags(body(lines, styles)) == lines_starts(lines),
        reads_as(body(lines, styles), 0, lines_starts(lines), lines_starts(lines)),
{
    lemma_lines_read(lines, styles);
    let closes = (lines_ends(lines) - lines_stray_ends(lines)) as nat;
    lemma_closers_read(lines_depth(lines), lines_starts(lines) - closes);
    lemma_reads_concat(
        lines_markup(lines, styles),
        closers(lines_depth(lines)),
        0,
        lines_starts(lines),
        closes,
        0,
        lines_depth(lines),
    );
}

/// Whatever the events, the markup of a snippet is well nested: the
/// container's two tags, and inside them one span for each `Start`.
pub proof fn lemma_document_well_nested(lines: Seq<Seq<TokenView>>, styles: StyleTableView)
    ensures
        is_well_nested(document(lines, styles)),
        opening_tags(document(lines, styles)) == lines_starts(lines) + 2,
        closing_tags(document(lines, styles)) == lines_starts(lines) + 2,
{
    let spans = lines_starts(lines);
    lemma_body_well_nested(lines, styles);
    lemma_container_shape();
    assert(reads_as(body(lines, styles), 2, spans, spans)) by {
        let inner = body(lines, styles);
        assert forall|k: int| 0 <= k <= inner.len() implies closed(inner, k) <= 2
            + #[trigger] opened(inner, k) by {
            assert(closed(inner, k) <= 0 + opened(inner, k));
        }
    }
    lemma_reads_concat(container_open(), body(lines, styles), 0, 2, 0, spans, spans);
    lemma_reads_concat(
        container_open() + body(lines, styles),
        container_close(),
        0,
        2 + spans,
        spans,
        0,
        2,
    );
}

/// Where the events nest, nothing is mended: the body is the rendered lines
/// and no more, it holds one opening tag for each `Start` and one closing tag
/// for each `End`, and there are as many of the one as of the other.
pub proof fn lemma_well_nested_stream(lines: Seq<Seq<TokenView>>, styles: StyleTableView)
    requires
        is_well_nested_stream(lines),
    ensures
        body(lines, styles) == lines_markup(lines, styles),
        lines_starts(lines) == lines_ends(lines),
        opening_tags(body(lines, styles)) == lines_starts(lines),
        closing_tags(body(lines, styles)) == lines_ends(lines),
        is_well_nested(body(lines, styles)),
{
    lemma_lines_read(lines, styles);
    lemma_body_well_nested(lines, styles);
    assert(closers(0) =~= Seq::<char>::empty());
    assert(body(lines, styles) =~= lines_markup(lines, styles));
}

/// A run of events in which every `End` finds a span open reports no
/// unbalanced stream.
pub proof fn lemma_events_without_stray_ends(
    events: Seq<TokenView>,
    line: nat,
    depth: nat,
    styles: StyleTableView,
)
    requires
        stray_ends(events, depth) == 0,
    ensures
        forall|i: int|
            0 <= i < events_diagnostics(events, line, depth, styles).len()
                ==> #[trigger] events_diagnostics(events, line, depth, styles)[i] is UnknownCategory,
    decreases events.len(),
{
    if events.len() > 0 {
        let front = events.drop_last();
        lemma_events_without_stray_ends(front, line, depth, styles);
        let before = events_diagnostics(front, line, depth, styles);
        let last = event_diagnostics(events.last(), line, depth_after(front, depth), styles);
        let all = events_diagnostics(events, line, depth, styles);
        assert forall|i: int| 0 <= i < all.len() implies #[trigger] all[i] is UnknownCategory by {
            if i < before.len() {
                assert(all[i] == before[i]);
            } else {
                assert(all[i] == last[i - before.len()]);
            }
        }
    }
}

/// Where the events nest, no unbalanced stream is reported.
pub proof fn lemma_well_nested_stream_diagnostics(
    lines: Seq<Seq<TokenView>>,
    styles: StyleTableView,
)
    requires
        lines_stray_ends(lines) == 0,
    ensures
        forall|i: int|
            0 <= i < lines_diagnostics(lines, styles).len() ==> #[trigger] lines_diagnostics(
                lines,
                styles,
            )[i] is UnknownCategory,
    decreases lines.len(),
{
    if lines.len() > 0 {
        let front = lines.drop_last();
        lemma_well_nested_stream_diagnostics(front, styles);
        lemma_events_without_stray_ends(
            lines.last(),
            (lines.len() - 1) as nat,
            lines_depth(front),
            styles,
        );
        let before = lines_diagnostics(front, styles);
        let last = events_diagnostics(
            lines.last(),
            (lines.len() - 1) as nat,
            lines_depth(front),
            styles,
        );
        let all = lines_diagnostics(lines, styles);
        assert forall|i: int| 0 <= i < all.len() implies #[trigger] all[i] is UnknownCategory by {
            if i < before.len() {
                assert(all[i] == before[i]);
            } else {
                assert(all[i] == last[i - before.len()]);
            }
        }
    }
}

/// Where line `k` begins among the rendered lines.
pub open spec fn line_offset(lines: Seq<Seq<TokenView>>, styles: StyleTableView, k: int) -> nat {
    lines_markup(lines.take(k), styles).len()
}

/// The first `k` rendered lines are what the rendered lines begin with.
pub proof fn lemma_lines_markup_prefix(lines: Seq<Seq<TokenView>>, styles: StyleTableView, k: int)
    requires
        0 <= k <= lines.len(),
    ensures
        line_offset(lines, styles, k) <= lines_markup(lines, styles).len(),
        lines_markup(lines, styles).take(line_offset(lines, styles, k) as int) == lines_markup(
            lines.take(k),
            styles,
        ),
    decreases lines.len(),
{
    let whole = lines_markup(lines, styles);
    if k == lines.len() {
        assert(lines.take(k) =~= lines);
        assert(whole.take(whole.len() as int) =~= whole);
    } else {
        let front = lines.drop_last();
        lemma_lines_markup_prefix(front, styles, k);
        assert(front.take(k) =~= lines.take(k));
        let at = line_offset(lines, styles, k) as int;
        assert(whole.take(at) =~= lines_markup(front, styles).take(at));
    }
}

/// Lines are numbered from zero, one by one: where line `k` begins stands
/// the number `k`, right-aligned in the gutter and followed by a space; the
/// line ends with a newline, and the next line begins right after it. The
/// number is read back from its digits, so no two lines bear the same one.
pub proof fn lemma_line_numbers(lines: Seq<Seq<TokenView>>, styles: StyleTableView, k: int)
    requires
        0 <= k < lines.len(),
    ensures
        ({
            let text = lines_markup(lines, styles);
            let at = line_offset(lines, styles, k) as int;
            let next = line_offset(lines, styles, k + 1) as int;
            let prefix = line_prefix(k as nat);
            &&& at + prefix.len() < next <= text.len()
            &&& text.subrange(at, at + prefix.len()) == prefix
            &&& text.subrange(at, next) == line_markup(
                k as nat,
                lines[k],
                lines_depth(lines.take(k)),
                styles,
            )
            &&& text[next - 1] == '\n'
        }),
        line_prefix(k as nat) == right_aligned(decimal(k as nat), GUTTER_WIDTH as nat).push(' '),
        decimal_value(decimal(k as nat)) == k,
{
    let text = lines_markup(lines, styles);
    let upto = lines.take(k + 1);
    let at = line_offset(lines, styles, k) as int;
    let next = line_offset(lines, styles, k + 1) as int;
    let prefix = line_prefix(k as nat);
    let line = line_markup(k as nat, lines[k], lines_depth(lines.take(k)), styles);
    lemma_lines_markup_prefix(lines, styles, k + 1);
    assert(upto.drop_last() =~= lines.take(k));
    assert(upto.last() == lines[k]);
    assert(lines_markup(upto, styles) == lines_markup(lines.take(k), styles) + line);
    assert(text.subrange(at, next) =~= text.take(next).subrange(at, next));
    assert(text.take(next).subrange(at, next) =~= line);
    assert(line.subrange(0, prefix.len() as int) =~= prefix);
    assert(text.subrange(at, at + prefix.len()) =~= text.subrange(at, next).subrange(
        0,
        prefix.len() as int,
    ));
    assert(text[next - 1] == text.subrange(at, next)[next - 1 - at]);
    lemma_decimal_value(k as nat);
}

/// Text is written escaped, once: its markup holds nothing that could open
/// or close a tag or end an attribute value, and un-escaping it gives the
/// text back. It opens no span, closes none, and is never reported.
pub proof fn lemma_text_event(
    content: Seq<char>,
    line: nat,
    depth: nat,
    styles: StyleTableView,
)
    ensures
        event_markup(TokenView::Text(content), depth, styles) == escaped(content),
        unescaped(event_markup(TokenView::Text(content), depth, styles)) == content,
        forall|i: int|
            0 <= i < escaped(content).len() ==> {
                let c = #[trigger] escaped(content)[i];
                c != '<' && c != '>' && c != '"' && c != '\''
            },
        depth_step(depth, TokenView::Text(content)) == depth,
        event_diagnostics(TokenView::Text(content), line, depth, styles)
            == Seq::<DiagnosticView>::empty(),
{
    lemma_unescaped_escaped(content);
    lemma_escaped_is_inert(content);
}

/// The colour that the tag `tag` of a painted span carries.
pub open spec fn span_color(tag: Seq<char>) -> Seq<char> {
    unescaped(tag.subrange("<span style=\"color: "@.len() as int, tag.len() - ";\">"@.len()))
}

/// A span of a category that the table knows carries exactly the colour of
/// its entry, and is not reported.
pub proof fn lemma_known_category(
    category: Seq<char>,
    line: nat,
    depth: nat,
    styles: StyleTableView,
)
    requires
        styles.knows(category),
    ensures
        event_markup(TokenView::Start(category), depth, styles) == styled_span_open(
            styles.colors[category],
        ),
        span_color(event_markup(TokenView::Start(category), depth, styles))
            == styles.colors[category],
        is_opening_tag(event_markup(TokenView::Start(category), depth, styles)),
        depth_step(depth, TokenView::Start(category)) == depth + 1,
        event_diagnostics(TokenView::Start(category), line, depth, styles)
            == Seq::<DiagnosticView>::empty(),
{
    let color = styles.colors[category];
    let tag = styled_span_open(color);
    let head = "<span style=\"color: "@;
    let tail = ";\">"@;
    assert(tag.subrange(head.len() as int, tag.len() - tail.len()) =~= escaped(color));
    lemma_unescaped_escaped(color);
    lemma_span_open_shape(Some(color));
}

/// A span of a category that the table does not know is opened all the same,
/// with the table's fallback treatment, and counted as open; the category is
/// reported, with the line it was met on.
pub proof fn lemma_unknown_category(
    category: Seq<char>,
    line: nat,
    depth: nat,
    styles: StyleTableView,
)
    requires
        !styles.knows(category),
    ensures
        event_markup(TokenView::Start(category), depth, styles) == span_open(styles.fallback),
        is_opening_tag(event_markup(TokenView::Start(category), depth, styles)),
        depth_step(depth, TokenView::Start(category)) == depth + 1,
        event_diagnostics(TokenView::Start(category), line, depth, styles)
            == seq![DiagnosticView::UnknownCategory { line, category }],
{
    lemma_span_open_shape(styles.fallback);
}

/// An `End` met where a span is open closes it; met where none is open, it
/// writes nothing, leaves the count at zero, and is reported.
pub proof fn lemma_end_event(marker: Seq<char>, line: nat, depth: nat, styles: StyleTableView)
    ensures
        depth > 0 ==> event_markup(TokenView::End(marker), depth, styles) == span_close()
            && depth_step(depth, TokenView::End(marker)) == depth - 1 && event_diagnostics(
            TokenView::End(marker),
            line,
            depth,
            styles,
        ) == Seq::<DiagnosticView>::empty(),
        depth == 0 ==> event_markup(TokenView::End(marker), depth, styles) == Seq::<char>::empty()
            && depth_step(depth, TokenView::End(marker)) == 0 && event_diagnostics(
            TokenView::End(marker),
            line,
            depth,
            styles,
        ) == seq![DiagnosticView::UnbalancedTokenStream { line }],
        is_closing_tag(span_close()),
{
    lemma_span_close_shape();
}

/// The prefix of a line holds no special character.
pub proof fn lemma_line_prefix_plain(index: nat)
    ensures
        is_plain(line_prefix(index)),
{
    lemma_decimal_digits(index);
    let digits = decimal(index);
    let field = right_aligned(digits, GUTTER_WIDTH as nat);
    assert forall|i: int| 0 <= i < field.len() implies #[trigger] field[i] == ' ' || '0'
        <= field[i] <= '9' by {
        if digits.len() >= GUTTER_WIDTH {
            assert('0' <= digits[i] <= '9');
        } else {
            let pad = spaces((GUTTER_WIDTH - digits.len()) as nat);
            if i < pad.len() {
                assert(field[i] == pad[i]);
            } else {
                assert(field[i] == digits[i - pad.len()]);
                assert('0' <= digits[i - pad.len()] <= '9');
            }
        }
    }
    let prefix = line_prefix(index);
    assert forall|i: int| 0 <= i < prefix.len() implies !is_special(#[trigger] prefix[i]) by {
        if i < field.len() {
            assert(prefix[i] == field[i]);
        }
    }
}

/// The markup of a run of events shows the text of the events, escaped, and
/// nothing else.
pub proof fn lemma_events_show(events: Seq<TokenView>, depth: nat, styles: StyleTableView)
    ensures
        shows(events_markup(events, depth, styles), escaped(line_text(events))),
    decreases events.len(),
{
    let nothing = Seq::<char>::empty();
    if events.len() == 0 {
        lemma_tagless_shows(nothing);
    } else {
        let front = events.drop_last();
        let mid = depth_after(front, depth);
        let before = escaped(line_text(front));
        lemma_events_show(front, depth, styles);
        match events.last() {
            TokenView::Start(category) => {
                lemma_span_open_shape(styles.style_of(category));
                lemma_tag_shows(span_open(styles.style_of(category)));
                lemma_shows_concat(
                    events_markup(front, depth, styles),
                    event_markup(events.last(), mid, styles),
                    before,
                    nothing,
                );
                assert(before + nothing =~= before);
            },
            TokenView::Text(content) => {
                lemma_escaped_is_inert(content);
                lemma_tagless_shows(escaped(content));
                lemma_shows_concat(
                    events_markup(front, depth, styles),
                    escaped(content),
                    before,
                    escaped(content),
                );
                lemma_escaped_concat(line_text(front), content);
            },
            TokenView::End(_) => {
                if mid > 0 {
                    lemma_span_close_shape();
                    lemma_tag_shows(span_close());
                } else {
                    lemma_tagless_shows(nothing);
                }
                lemma_shows_concat(
                    events_markup(front, depth, styles),
                    event_markup(events.last(), mid, styles),
                    before,
                    nothing,
                );
                assert(before + nothing =~= before);
            },
        }
    }
}

/// A rendered line shows its number, the text of its events and a newline,
/// escaped.
pub proof fn lemma_line_shows(
    index: nat,
    events: Seq<TokenView>,
    depth: nat,
    styles: StyleTableView,
)
    ensures
        shows(
            line_markup(index, events, depth, styles),
            escaped(line_prefix(index) + line_text(events) + seq!['\n']),
        ),
{
    let prefix = line_prefix(index);
    let text = line_text(events);
    let newline = seq!['\n'];
    lemma_events_show(events, depth, styles);
    lemma_line_prefix_tagless(index);
    lemma_line_prefix_plain(index);
    lemma_escaped_plain(prefix);
    assert(is_plain(newline));
    lemma_escaped_plain(newline);
    lemma_tagless_shows(prefix);
    lemma_tagless_shows(newline);
    lemma_shows_concat(prefix, events_markup(events, depth, styles), prefix, escaped(text));
    lemma_shows_concat(
        prefix + events_markup(events, depth, styles),
        newline,
        prefix + escaped(text),
        newline,
    );
    lemma_escaped_concat(prefix, text);
    lemma_escaped_concat(prefix + text, newline);
}

/// The rendered lines show the listing of the lines' texts, escaped.
pub proof fn lemma_lines_show(lines: Seq<Seq<TokenView>>, styles: StyleTableView)
    ensures
        shows(lines_markup(lines, styles), escaped(listing(line_texts(lines)))),
    decreases lines.len(),
{
    let texts = line_texts(lines);
    if lines.len() == 0 {
        lemma_tagless_shows(Seq::<char>::empty());
    } else {
        let front = lines.drop_last();
        let index = (lines.len() - 1) as nat;
        lemma_lines_show(front, styles);
        lemma_line_shows(index, lines.last(), lines_depth(front), styles);
        assert(texts.drop_last() =~= line_texts(front));
        assert(texts.last() == line_text(lines.last()));
        let line = line_prefix(index) + line_text(lines.last()) + seq!['\n'];
        lemma_shows_concat(
            lines_markup(front, styles),
            line_markup(index, lines.last(), lines_depth(front), styles),
            escaped(listing(line_texts(front))),
            escaped(line),
        );
        lemma_escaped_concat(listing(line_texts(front)), line);
        assert(listing(texts) =~= listing(line_texts(front)) + line);
    }
}

/// Closing tags show nothing.
pub proof fn lemma_closers_show(count: nat)
    ensures
        shows(closers(count), Seq::empty()),
    decreases count,
{
    let nothing = Seq::<char>::empty();
    if count == 0 {
        lemma_tagless_shows(nothing);
    } else {
        lemma_closers_show((count - 1) as nat);
        lemma_span_close_shape();
        lemma_tag_shows(span_close());
        lemma_shows_concat(closers((count - 1) as nat), span_close(), nothing, nothing);
        assert(nothing + nothing =~= nothing);
    }
}

/// Whatever the events and the styles, the text that the markup of a snippet
/// shows is the listing of the lines' texts, escaped: every line behind its
/// number, nothing added and nothing lost. Un-escaping it gives the listing
/// itself.
pub proof fn lemma_document_shows(lines: Seq<Seq<TokenView>>, styles: StyleTableView)
    ensures
        visible_text(document(lines, styles)) == escaped(listing(line_texts(lines))),
        unescaped(visible_text(document(lines, styles))) == listing(line_texts(lines)),
        shows(document(lines, styles), escaped(listing(line_texts(lines)))),
{
    let nothing = Seq::<char>::empty();
    let shown = escaped(listing(line_texts(lines)));
    lemma_lines_show(lines, styles);
    lemma_closers_show(lines_depth(lines));
    lemma_container_shape();
    lemma_shows_concat(lines_markup(lines, styles), closers(lines_depth(lines)), shown, nothing);
    assert(shown + nothing =~= shown);
    lemma_shows_concat(container_open(), body(lines, styles), nothing, shown);
    assert(nothing + shown =~= shown);
    lemma_shows_concat(
        container_open() + body(lines, styles),
        container_close(),
        shown,
        nothing,
    );
    lemma_unescaped_escaped(listing(line_texts(lines)));
}

} // verus!
