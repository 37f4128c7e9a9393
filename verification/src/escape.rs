//! Escaping of raw text for use inside markup, and the way back.
//!
//! Five characters have a meaning of their own in markup: `&`, `<`, `>`, `"`
//! and `'`. Each is replaced by a character reference that begins with `&` and
//! ends with `;`; every other character stands for itself. Escaping is not
//! idempotent: escaped text holds `&` wherever a reference begins, so escaping
//! it a second time changes it again. Whoever renders raw text escapes it
//! exactly once.

use vstd::prelude::*;
use vstd::string::*;

verus! {

/// Whether `c` has a meaning of its own in markup.
pub open spec fn is_special(c: char) -> bool {
    c == '&' || c == '<' || c == '>' || c == '"' || c == '\''
}

/// What stands for `c` in escaped text: a character reference for a special
/// character, the character itself otherwise.
pub open spec fn escaped_char(c: char) -> Seq<char> {
    if c == '&' {
        seq!['&', 'a', 'm', 'p', ';']
    } else if c == '<' {
        seq!['&', 'l', 't', ';']
    } else if c == '>' {
        seq!['&', 'g', 't', ';']
    } else if c == '"' {
        seq!['&', 'q', 'u', 'o', 't', ';']
    } else if c == '\'' {
        seq!['&', '#', '3', '9', ';']
    } else {
        seq![c]
    }
}

/// The escaped form of `s`: the escaped forms of its characters, in order.
pub open spec fn escaped(s: Seq<char>) -> Seq<char>
    decreases s.len(),
{
    if s.len() == 0 {
        Seq::empty()
    } else {
        escaped(s.drop_last()) + escaped_char(s.last())
    }
}

/// Whether `s` begins with `p`.
pub open spec fn starts_with(s: Seq<char>, p: Seq<char>) -> bool {
    p.len() <= s.len() && s.take(p.len() as int) == p
}

/// The text that `s` stands for: each character reference that `escaped_char`
/// produces is read back as its character, everything else is kept.
pub open spec fn unescaped(s: Seq<char>) -> Seq<char>
    decreases s.len(),
{
    if s.len() == 0 {
        Seq::empty()
    } else if starts_with(s, escaped_char('&')) {
        seq!['&'] + unescaped(s.skip(5))
    } else if starts_with(s, escaped_char('<')) {
        seq!['<'] + unescaped(s.skip(4))
    } else if starts_with(s, escaped_char('>')) {
        seq!['>'] + unescaped(s.skip(4))
    } else if starts_with(s, escaped_char('"')) {
        seq!['"'] + unescaped(s.skip(6))
    } else if starts_with(s, escaped_char('\'')) {
        seq!['\''] + unescaped(s.skip(5))
    } else {
        seq![s[0]] + unescaped(s.skip(1))
    }
}

/// Whether no character of `s` is special.
pub open spec fn is_plain(s: Seq<char>) -> bool {
    forall|i: int| 0 <= i < s.len() ==> !is_special(#[trigger] s[i])
}

/// A sequence that begins with `p` agrees with `p` at each index of `p`.
pub proof fn lemma_starts_with_at(s: Seq<char>, p: Seq<char>, k: int)
    requires
        starts_with(s, p),
        0 <= k < p.len(),
    ensures
        s[k] == p[k],
{
    assert(s.take(p.len() as int)[k] == s[k]);
}

/// A sequence that differs from `p` at an index of `p` does not begin with
/// `p`.
pub proof fn lemma_differs(s: Seq<char>, p: Seq<char>, k: int)
    requires
        0 <= k < p.len(),
        k < s.len() ==> s[k] != p[k],
    ensures
        !starts_with(s, p),
{
    if starts_with(s, p) {
        lemma_starts_with_at(s, p, k);
    }
}

/// The escaped form of a single character.
pub proof fn lemma_escaped_single(c: char)
    ensures
        escaped(seq![c]) == escaped_char(c),
{
    let one = seq![c];
    assert(one.drop_last() =~= Seq::<char>::empty());
    assert(escaped(one.drop_last()) =~= Seq::<char>::empty());
    assert(escaped(one) =~= escaped_char(c));
}

/// Escaping distributes over concatenation.
pub proof fn lemma_escaped_concat(a: Seq<char>, b: Seq<char>)
    ensures
        escaped(a + b) == escaped(a) + escaped(b),
    decreases b.len(),
{
    if b.len() == 0 {
        assert(a + b =~= a);
        assert(escaped(a) + escaped(b) =~= escaped(a));
    } else {
        lemma_escaped_concat(a, b.drop_last());
        assert((a + b).drop_last() =~= a + b.drop_last());
        assert((a + b).last() == b.last());
        assert(escaped(a) + escaped(b.drop_last()) + escaped_char(b.last()) =~= escaped(a) + (
            escaped(b.drop_last()) + escaped_char(b.last())
        ));
    }
}

/// The escaped form of `s` begins with the escaped form of its first character.
pub proof fn lemma_escaped_first(s: Seq<char>)
    requires
        s.len() > 0,
    ensures
        escaped(s) == escaped_char(s[0]) + escaped(s.drop_first()),
{
    let head = seq![s[0]];
    assert(s =~= head + s.drop_first());
    lemma_escaped_concat(head, s.drop_first());
    lemma_escaped_single(s[0]);
}

/// Escaped text is at least as long as the raw text.
pub proof fn lemma_escaped_len(s: Seq<char>)
    ensures
        escaped(s).len() >= s.len(),
        is_plain(s) ==> escaped(s).len() == s.len(),
        !is_plain(s) ==> escaped(s).len() > s.len(),
    decreases s.len(),
{
    if s.len() > 0 {
        let front = s.drop_last();
        lemma_escaped_len(front);
        if is_plain(s) {
            assert forall|i: int| 0 <= i < front.len() implies !is_special(
                #[trigger] front[i],
            ) by {
                assert(front[i] == s[i]);
            }
            assert(!is_special(s[s.len() - 1]));
        } else {
            let i = choose|i: int| 0 <= i < s.len() && is_special(#[trigger] s[i]);
            if i < s.len() - 1 {
                assert(front[i] == s[i]);
                assert(!is_plain(front));
            }
        }
    }
}

/// Escaping leaves plain text as it is.
pub proof fn lemma_escaped_plain(s: Seq<char>)
    requires
        is_plain(s),
    ensures
        escaped(s) == s,
    decreases s.len(),
{
    if s.len() > 0 {
        let front = s.drop_last();
        assert forall|i: int| 0 <= i < front.len() implies !is_special(#[trigger] front[i]) by {
            assert(front[i] == s[i]);
        }
        lemma_escaped_plain(front);
        assert(!is_special(s[s.len() - 1]));
        assert(front + seq![s.last()] =~= s);
    } else {
        assert(s =~= Seq::<char>::empty());
    }
}

/// Escaped text holds none of `<`, `>`, `"` and `'`: it cannot open or close
/// a tag, nor end an attribute value.
pub proof fn lemma_escaped_is_inert(s: Seq<char>)
    ensures
        forall|i: int|
            0 <= i < escaped(s).len() ==> {
                let c = #[trigger] escaped(s)[i];
                c != '<' && c != '>' && c != '"' && c != '\''
            },
    decreases s.len(),
{
    if s.len() > 0 {
        lemma_escaped_is_inert(s.drop_last());
        let front = escaped(s.drop_last());
        let tail = escaped_char(s.last());
        assert forall|i: int| 0 <= i < escaped(s).len() implies {
            let c = #[trigger] escaped(s)[i];
            c != '<' && c != '>' && c != '"' && c != '\''
        } by {
            if i < front.len() {
                assert(escaped(s)[i] == front[i]);
            } else {
                assert(escaped(s)[i] == tail[i - front.len()]);
            }
        }
    }
}

/// Un-escaping gives the raw text back, whatever it holds.
pub proof fn lemma_unescaped_escaped(s: Seq<char>)
    ensures
        unescaped(escaped(s)) == s,
    decreases s.len(),
{
    if s.len() == 0 {
        assert(unescaped(escaped(s)) =~= s);
    } else {
        let c = s[0];
        let rest = s.drop_first();
        let head = escaped_char(c);
        let tail = escaped(rest);
        let whole = head + tail;
        lemma_escaped_first(s);
        lemma_unescaped_escaped(rest);
        assert(whole.take(head.len() as int) =~= head);
        assert(whole.skip(head.len() as int) =~= tail);
        assert(whole[0] == head[0]);
        if is_special(c) {
            assert(whole[1] == head[1]);
        }
        let at: int = if is_special(c) {
            1
        } else {
            0
        };
        if c != '&' {
            lemma_differs(whole, escaped_char('&'), at);
        }
        if c != '<' {
            lemma_differs(whole, escaped_char('<'), at);
        }
        if c != '>' {
            lemma_differs(whole, escaped_char('>'), at);
        }
        if c != '"' {
            lemma_differs(whole, escaped_char('"'), at);
        }
        if c != '\'' {
            lemma_differs(whole, escaped_char('\''), at);
        }
        assert(unescaped(whole) =~= seq![c] + unescaped(tail));
        assert(seq![c] + rest =~= s);
    }
}

/// Escaping twice is not escaping once: text that holds a special character
/// changes again when its escaped form is escaped.
pub proof fn lemma_escaped_twice(s: Seq<char>)
    ensures
        is_plain(s) ==> escaped(escaped(s)) == escaped(s),
        !is_plain(s) ==> escaped(escaped(s)) != escaped(s),
{
    if is_plain(s) {
        lemma_escaped_plain(s);
    } else {
        let i = choose|i: int| 0 <= i < s.len() && is_special(#[trigger] s[i]);
        let before = escaped(s.take(i));
        let after = escaped(s.skip(i + 1));
        assert(s =~= s.take(i) + seq![s[i]] + s.skip(i + 1));
        lemma_escaped_concat(s.take(i) + seq![s[i]], s.skip(i + 1));
        lemma_escaped_concat(s.take(i), seq![s[i]]);
        lemma_escaped_single(s[i]);
        assert(escaped(s) == before + escaped_char(s[i]) + after);
        assert(escaped(s)[before.len() as int] == escaped_char(s[i])[0]);
        assert(is_special(escaped(s)[before.len() as int]));
        lemma_escaped_len(escaped(s));
    }
}

/// Appends one character. Wraps `String::push`, which adds `c` at the end and
/// leaves the rest of the string as it was.
#[verifier::external_body]
pub(crate) fn push_char(out: &mut String, c: char)
    ensures
        final(out)@ == old(out)@.push(c),
{
    out.push(c)
}

/// Appends the escaped form of `text` to `out`.
pub fn push_escaped(out: &mut String, text: &str)
    ensures
        final(out)@ == old(out)@ + escaped(text@),
{
    let ghost before = out@;
    assert(text@.take(0) =~= Seq::<char>::empty());
    assert(before + escaped(text@.take(0)) =~= before);
    for c in it: text.chars()
        invariant
            it.seq() == text@,
            out@ == before + escaped(text@.take(it.index() as int)),
    {
        let ghost done = text@.take(it.index() as int);
        if c == '&' {
            proof {
                reveal_strlit("&amp;");
            }
            out.append("&amp;");
            assert("&amp;"@ =~= escaped_char(c));
        } else if c == '<' {
            proof {
                reveal_strlit("&lt;");
            }
            out.append("&lt;");
            assert("&lt;"@ =~= escaped_char(c));
        } else if c == '>' {
            proof {
                reveal_strlit("&gt;");
            }
            out.append("&gt;");
            assert("&gt;"@ =~= escaped_char(c));
        } else if c == '"' {
            proof {
                reveal_strlit("&quot;");
            }
            out.append("&quot;");
            assert("&quot;"@ =~= escaped_char(c));
        } else if c == '\'' {
            proof {
                reveal_strlit("&#39;");
            }
            out.append("&#39;");
            assert("&#39;"@ =~= escaped_char(c));
        } else {
            push_char(out, c);
            assert(before + escaped(done) + escaped_char(c) =~= (before + escaped(done)).push(c));
        }
        proof {
            let next = text@.take(it.index() + 1);
            assert(next.drop_last() =~= done);
            assert(next.last() == c);
            assert(before + escaped(done) + escaped_char(c) =~= before + escaped(next));
        }
    }
    assert(text@.take(text@.len() as int) =~= text@);
}

/// The escaped form of `text`.
pub fn escape(text: &str) -> (out: String)
    ensures
        out@ == escaped(text@),
{
    let mut out = String::new();
    push_escaped(&mut out, text);
    assert(Seq::<char>::empty() + escaped(text@) =~= escaped(text@));
    out
}

/// The characters of `text`, in order.
pub(crate) fn chars_of(text: &str) -> (chars: Vec<char>)
    ensures
        chars@ == text@,
{
    let mut chars: Vec<char> = Vec::new();
    assert(text@.take(0) =~= Seq::<char>::empty());
    for c in it: text.chars()
        invariant
            it.seq() == text@,
            chars@ == text@.take(it.index() as int),
    {
        chars.push(c);
        assert(text@.take(it.index() + 1) =~= text@.take(it.index() as int).push(c));
    }
    assert(text@.take(text@.len() as int) =~= text@);
    chars
}

/// Whether what stands in `chars` from index `at` on begins with `pattern`.
fn begins_with(chars: &Vec<char>, at: usize, pattern: &str) -> (found: bool)
    requires
        at <= chars.len(),
    ensures
        found == starts_with(chars@.skip(at as int), pattern@),
{
    let width: usize = pattern.unicode_len();
    if width > chars.len() - at {
        return false;
    }
    let ghost rest = chars@.skip(at as int);
    let mut k: usize = 0;
    while k < width
        invariant
            k <= width,
            width == pattern@.len(),
            width <= chars.len() - at,
            rest == chars@.skip(at as int),
            forall|j: int| 0 <= j < k ==> rest[j] == pattern@[j],
        decreases width - k,
    {
        if chars[at + k] != pattern.get_char(k) {
            proof {
                if starts_with(rest, pattern@) {
                    lemma_starts_with_at(rest, pattern@, k as int);
                }
            }
            return false;
        }
        k += 1;
    }
    assert(rest.take(width as int) =~= pattern@);
    true
}

/// The text that `text` stands for: every character reference that `escape`
/// writes is read back as its character.
pub fn unescape(text: &str) -> (out: String)
    ensures
        out@ == unescaped(text@),
{
    let chars = chars_of(text);
    let n: usize = chars.len();
    let mut out = String::new();
    let mut i: usize = 0;
    assert(chars@.skip(0) =~= chars@);
    assert(out@ + unescaped(chars@) =~= unescaped(chars@));
    while i < n
        invariant
            n == chars.len(),
            i <= n,
            chars@ == text@,
            out@ + unescaped(chars@.skip(i as int)) == unescaped(chars@),
        decreases n - i,
    {
        let ghost rest = chars@.skip(i as int);
        let ghost before = out@;
        let mut c = chars[i];
        let mut width: usize = 1;
        proof {
            reveal_strlit("&amp;");
            reveal_strlit("&lt;");
            reveal_strlit("&gt;");
            reveal_strlit("&quot;");
            reveal_strlit("&#39;");
            assert("&amp;"@ =~= escaped_char('&'));
            assert("&lt;"@ =~= escaped_char('<'));
            assert("&gt;"@ =~= escaped_char('>'));
            assert("&quot;"@ =~= escaped_char('"'));
            assert("&#39;"@ =~= escaped_char('\''));
        }
        if begins_with(&chars, i, "&amp;") {
            c = '&';
            width = 5;
        } else if begins_with(&chars, i, "&lt;") {
            c = '<';
            width = 4;
        } else if begins_with(&chars, i, "&gt;") {
            c = '>';
            width = 4;
        } else if begins_with(&chars, i, "&quot;") {
            c = '"';
            width = 6;
        } else if begins_with(&chars, i, "&#39;") {
            c = '\'';
            width = 5;
        }
        assert(unescaped(rest) == seq![c] + unescaped(rest.skip(width as int)));
        push_char(&mut out, c);
        i += width;
        assert(rest.skip(width as int) =~= chars@.skip(i as int));
        assert(before.push(c) + unescaped(chars@.skip(i as int)) =~= before + unescaped(rest));
    }
    assert(chars@.skip(n as int) =~= Seq::<char>::empty());
    assert(out@ + unescaped(Seq::<char>::empty()) =~= out@);
    out
}

} // verus!
