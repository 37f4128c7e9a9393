//! Reading tags off a string of markup.
//!
//! A tag begins at every `<`: a closing tag where `/` follows at once, an
//! opening tag otherwise. Markup is well nested when, read from the left, it
//! never closes more tags than it has opened, and has closed them all at its
//! end.
//!
//! A tag runs from its `<` to the next `>`. What stands outside of tags is the
//! text that the markup shows, still escaped.

use vstd::prelude::*;

verus! {

/// Whether a closing tag begins at index `i` of `s`.
pub open spec fn closes_at(s: Seq<char>, i: int) -> bool {
    0 <= i < s.len() && s[i] == '<' && i + 1 < s.len() && s[i + 1] == '/'
}

/// Whether an opening tag begins at index `i` of `s`.
pub open spec fn opens_at(s: Seq<char>, i: int) -> bool {
    0 <= i < s.len() && s[i] == '<' && !(i + 1 < s.len() && s[i + 1] == '/')
}

/// The number of opening tags that begin among the first `k` characters of
/// `s`.
pub open spec fn opened(s: Seq<char>, k: int) -> nat
    decreases k,
{
    if k <= 0 {
        0
    } else if opens_at(s, k - 1) {
        opened(s, k - 1) + 1
    } else {
        opened(s, k - 1)
    }
}

/// The number of closing tags that begin among the first `k` characters of
/// `s`.
pub open spec fn closed(s: Seq<char>, k: int) -> nat
    decreases k,
{
    if k <= 0 {
        0
    } else if closes_at(s, k - 1) {
        closed(s, k - 1) + 1
    } else {
        closed(s, k - 1)
    }
}

/// The number of opening tags in `s`.
pub open spec fn opening_tags(s: Seq<char>) -> nat {
    opened(s, s.len() as int)
}

/// The number of closing tags in `s`.
pub open spec fn closing_tags(s: Seq<char>) -> nat {
    closed(s, s.len() as int)
}

/// Whether the tags of `s` nest: no prefix of `s` closes more tags than it
/// opens, and `s` as a whole closes as many as it opens.
pub open spec fn is_well_nested(s: Seq<char>) -> bool {
    &&& forall|k: int| 0 <= k <= s.len() ==> closed(s, k) <= #[trigger] opened(s, k)
    &&& opening_tags(s) == closing_tags(s)
}

/// Whether `s` does not break off where a tag begins.
pub open spec fn is_whole(s: Seq<char>) -> bool {
    s.len() > 0 ==> s.last() != '<'
}

/// Whether `s` holds no `<`.
pub open spec fn is_tagless(s: Seq<char>) -> bool {
    forall|i: int| 0 <= i < s.len() ==> #[trigger] s[i] != '<'
}

/// Whether `s` is one opening tag: it begins with `<`, goes on with something
/// other than `/`, and holds no second `<`.
pub open spec fn is_opening_tag(s: Seq<char>) -> bool {
    &&& s.len() >= 2
    &&& s[0] == '<'
    &&& s[1] != '/'
    &&& forall|i: int| 1 <= i < s.len() ==> #[trigger] s[i] != '<'
}

/// Whether `s` is one closing tag: it begins with `</` and holds no second
/// `<`.
pub open spec fn is_closing_tag(s: Seq<char>) -> bool {
    &&& s.len() >= 2
    &&& s[0] == '<'
    &&& s[1] == '/'
    &&& forall|i: int| 1 <= i < s.len() ==> #[trigger] s[i] != '<'
}

/// Whether `s`, read where `depth` tags are open, is whole, opens `opens`
/// tags, closes `closes` tags, and at no point closes a tag that is not open.
pub open spec fn reads_as(s: Seq<char>, depth: int, opens: nat, closes: nat) -> bool {
    &&& is_whole(s)
    &&& opening_tags(s) == opens
    &&& closing_tags(s) == closes
    &&& forall|k: int| 0 <= k <= s.len() ==> closed(s, k) <= depth + #[trigger] opened(s, k)
}

/// Behind a whole string, what follows is read as if it stood alone.
pub proof fn lemma_counts_concat(a: Seq<char>, b: Seq<char>, k: int)
    requires
        is_whole(a),
        0 <= k <= a.len() + b.len(),
    ensures
        k <= a.len() ==> opened(a + b, k) == opened(a, k) && closed(a + b, k) == closed(a, k),
        k >= a.len() ==> opened(a + b, k) == opening_tags(a) + opened(b, k - a.len()) && closed(
            a + b,
            k,
        ) == closing_tags(a) + closed(b, k - a.len()),
    decreases k,
{
    if k > 0 {
        lemma_counts_concat(a, b, k - 1);
        let i = k - 1;
        let s = a + b;
        if i < a.len() {
            assert(s[i] == a[i]);
            if a[i] == '<' {
                assert(i + 1 < a.len());
                assert(s[i + 1] == a[i + 1]);
            }
            assert(opens_at(s, i) == opens_at(a, i));
            assert(closes_at(s, i) == closes_at(a, i));
        } else {
            let j = i - a.len();
            assert(s[i] == b[j]);
            if j + 1 < b.len() {
                assert(s[i + 1] == b[j + 1]);
            }
            assert(opens_at(s, i) == opens_at(b, j));
            assert(closes_at(s, i) == closes_at(b, j));
        }
    }
}

/// Two readings, one after the other, make one reading.
pub proof fn lemma_reads_concat(
    a: Seq<char>,
    b: Seq<char>,
    depth: int,
    opens_a: nat,
    closes_a: nat,
    opens_b: nat,
    closes_b: nat,
)
    requires
        reads_as(a, depth, opens_a, closes_a),
        reads_as(b, depth + opens_a - closes_a, opens_b, closes_b),
    ensures
        reads_as(a + b, depth, opens_a + opens_b, closes_a + closes_b),
{
    let s = a + b;
    lemma_counts_concat(a, b, s.len() as int);
    assert forall|k: int| 0 <= k <= s.len() implies closed(s, k) <= depth + #[trigger] opened(
        s,
        k,
    ) by {
        lemma_counts_concat(a, b, k);
        if k <= a.len() {
            assert(closed(a, k) <= depth + opened(a, k));
        } else {
            assert(closed(b, k - a.len()) <= depth + opens_a - closes_a + opened(b, k - a.len()));
        }
    }
    if b.len() > 0 {
        assert(s.last() == b.last());
    } else {
        assert(s =~= a);
    }
}

/// A string without `<` opens and closes nothing.
pub proof fn lemma_tagless_counts(s: Seq<char>, k: int)
    requires
        is_tagless(s),
        0 <= k <= s.len(),
    ensures
        opened(s, k) == 0,
        closed(s, k) == 0,
    decreases k,
{
    if k > 0 {
        lemma_tagless_counts(s, k - 1);
        assert(s[k - 1] != '<');
    }
}

/// A string without `<` can stand wherever no tag is half written.
pub proof fn lemma_tagless_reads(s: Seq<char>, depth: int)
    requires
        is_tagless(s),
        depth >= 0,
    ensures
        reads_as(s, depth, 0, 0),
{
    lemma_tagless_counts(s, s.len() as int);
    assert forall|k: int| 0 <= k <= s.len() implies closed(s, k) <= depth + #[trigger] opened(
        s,
        k,
    ) by {
        lemma_tagless_counts(s, k);
    }
    if s.len() > 0 {
        assert(s[s.len() - 1] != '<');
    }
}

/// An opening tag opens one tag from its first character on.
pub proof fn lemma_opening_tag_counts(s: Seq<char>, k: int)
    requires
        is_opening_tag(s),
        1 <= k <= s.len(),
    ensures
        opened(s, k) == 1,
        closed(s, k) == 0,
    decreases k,
{
    if k > 1 {
        lemma_opening_tag_counts(s, k - 1);
        assert(s[k - 1] != '<');
    } else {
        assert(opened(s, 0) == 0);
        assert(closed(s, 0) == 0);
        assert(opens_at(s, 0));
    }
}

/// An opening tag can stand wherever no tag is half written.
pub proof fn lemma_opening_tag_reads(s: Seq<char>, depth: int)
    requires
        is_opening_tag(s),
        depth >= 0,
    ensures
        reads_as(s, depth, 1, 0),
{
    lemma_opening_tag_counts(s, s.len() as int);
    assert forall|k: int| 0 <= k <= s.len() implies closed(s, k) <= depth + #[trigger] opened(
        s,
        k,
    ) by {
        if k >= 1 {
            lemma_opening_tag_counts(s, k);
        }
    }
    assert(s[s.len() - 1] != '<');
}

/// A closing tag closes one tag from its first character on.
pub proof fn lemma_closing_tag_counts(s: Seq<char>, k: int)
    requires
        is_closing_tag(s),
        1 <= k <= s.len(),
    ensures
        opened(s, k) == 0,
        closed(s, k) == 1,
    decreases k,
{
    if k > 1 {
        lemma_closing_tag_counts(s, k - 1);
        assert(s[k - 1] != '<');
    } else {
        assert(opened(s, 0) == 0);
        assert(closed(s, 0) == 0);
        assert(closes_at(s, 0));
    }
}

/// A closing tag can stand wherever a tag is open.
pub proof fn lemma_closing_tag_reads(s: Seq<char>, depth: int)
    requires
        is_closing_tag(s),
        depth >= 1,
    ensures
        reads_as(s, depth, 0, 1),
{
    lemma_closing_tag_counts(s, s.len() as int);
    assert forall|k: int| 0 <= k <= s.len() implies closed(s, k) <= depth + #[trigger] opened(
        s,
        k,
    ) by {
        if k >= 1 {
            lemma_closing_tag_counts(s, k);
        }
    }
    assert(s[s.len() - 1] != '<');
}

/// Whether the first `k` characters of `s` break off inside a tag.
pub open spec fn inside_tag(s: Seq<char>, k: int) -> bool
    decreases k,
{
    if k <= 0 {
        false
    } else if s[k - 1] == '<' {
        true
    } else if s[k - 1] == '>' {
        false
    } else {
        inside_tag(s, k - 1)
    }
}

/// Those of the first `k` characters of `s` that stand outside of tags.
pub open spec fn text_outside_tags(s: Seq<char>, k: int) -> Seq<char>
    decreases k,
{
    if k <= 0 {
        Seq::empty()
    } else if s[k - 1] == '<' || inside_tag(s, k - 1) {
        text_outside_tags(s, k - 1)
    } else {
        text_outside_tags(s, k - 1).push(s[k - 1])
    }
}

/// The text that `s` shows: what stands outside of its tags.
pub open spec fn visible_text(s: Seq<char>) -> Seq<char> {
    text_outside_tags(s, s.len() as int)
}

/// Whether `s` ends outside of any tag and shows the text `text`.
pub open spec fn shows(s: Seq<char>, text: Seq<char>) -> bool {
    !inside_tag(s, s.len() as int) && visible_text(s) == text
}

/// Whether `s` is one tag from its first character to its last: it begins
/// with `<`, ends with `>`, and holds neither of them in between.
pub open spec fn is_tag(s: Seq<char>) -> bool {
    &&& s.len() >= 2
    &&& s[0] == '<'
    &&& s.last() == '>'
    &&& forall|i: int| 1 <= i < s.len() ==> #[trigger] s[i] != '<'
    &&& forall|i: int| 0 <= i < s.len() - 1 ==> #[trigger] s[i] != '>'
}

/// Putting something behind `a` changes nothing of how `a` is read.
pub proof fn lemma_text_prefix(a: Seq<char>, b: Seq<char>, k: int)
    requires
        0 <= k <= a.len(),
    ensures
        inside_tag(a + b, k) == inside_tag(a, k),
        text_outside_tags(a + b, k) == text_outside_tags(a, k),
    decreases k,
{
    if k > 0 {
        lemma_text_prefix(a, b, k - 1);
        assert((a + b)[k - 1] == a[k - 1]);
    }
}

/// Behind markup that ends outside of a tag, what follows is read as if it
/// stood alone.
pub proof fn lemma_text_concat(a: Seq<char>, b: Seq<char>, k: int)
    requires
        !inside_tag(a, a.len() as int),
        0 <= k <= b.len(),
    ensures
        inside_tag(a + b, a.len() + k) == inside_tag(b, k),
        text_outside_tags(a + b, a.len() + k) == visible_text(a) + text_outside_tags(b, k),
    decreases k,
{
    if k > 0 {
        lemma_text_concat(a, b, k - 1);
        assert((a + b)[a.len() + k - 1] == b[k - 1]);
        assert(visible_text(a) + text_outside_tags(b, k - 1).push(b[k - 1]) =~= (visible_text(a)
            + text_outside_tags(b, k - 1)).push(b[k - 1]));
    } else {
        lemma_text_prefix(a, b, a.len() as int);
        assert(visible_text(a) + text_outside_tags(b, 0) =~= visible_text(a));
    }
}

/// What two pieces of markup show, one after the other, is what their
/// concatenation shows.
pub proof fn lemma_shows_concat(a: Seq<char>, b: Seq<char>, text_a: Seq<char>, text_b: Seq<char>)
    requires
        shows(a, text_a),
        shows(b, text_b),
    ensures
        shows(a + b, text_a + text_b),
{
    lemma_text_concat(a, b, b.len() as int);
}

/// Inside a tag nothing is shown.
pub proof fn lemma_tag_inside(s: Seq<char>, k: int)
    requires
        is_tag(s),
        1 <= k < s.len(),
    ensures
        inside_tag(s, k),
        text_outside_tags(s, k) == Seq::<char>::empty(),
    decreases k,
{
    if k > 1 {
        lemma_tag_inside(s, k - 1);
        assert(s[k - 1] != '<');
        assert(s[k - 1] != '>');
    } else {
        assert(text_outside_tags(s, 0) == Seq::<char>::empty());
    }
}

/// A tag shows nothing.
pub proof fn lemma_tag_shows(s: Seq<char>)
    requires
        is_tag(s),
    ensures
        shows(s, Seq::empty()),
{
    lemma_tag_inside(s, s.len() - 1);
    assert(s[s.len() - 1] != '<');
}

/// Of markup without `<`, all is shown.
pub proof fn lemma_tagless_text(s: Seq<char>, k: int)
    requires
        is_tagless(s),
        0 <= k <= s.len(),
    ensures
        !inside_tag(s, k),
        text_outside_tags(s, k) == s.take(k),
    decreases k,
{
    if k > 0 {
        lemma_tagless_text(s, k - 1);
        assert(s[k - 1] != '<');
        assert(s.take(k - 1).push(s[k - 1]) =~= s.take(k));
    } else {
        assert(s.take(0) =~= Seq::<char>::empty());
    }
}

/// Markup without `<` shows itself.
pub proof fn lemma_tagless_shows(s: Seq<char>)
    requires
        is_tagless(s),
    ensures
        shows(s, s),
{
    lemma_tagless_text(s, s.len() as int);
    assert(s.take(s.len() as int) =~= s);
}

} // verus!
