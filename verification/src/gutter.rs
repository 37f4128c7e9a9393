//! The line-number gutter: each rendered line begins with its number, written
//! in decimal, right-aligned in a field of fixed minimum width and followed by
//! one space.

use crate::escape::push_char;
use vstd::prelude::*;

verus! {

/// The least width of the field that holds a line number.
pub const GUTTER_WIDTH: usize = 2;

/// The decimal digit for `d`, where `d` is below ten.
pub open spec fn digit(d: nat) -> char {
    (('0' as nat) + d) as char
}

/// The number `n` written in decimal, without leading zeros.
pub open spec fn decimal(n: nat) -> Seq<char>
    decreases n,
{
    if n < 10 {
        seq![digit(n)]
    } else {
        decimal(n / 10).push(digit(n % 10))
    }
}

/// The number that a string of decimal digits stands for.
pub open spec fn decimal_value(s: Seq<char>) -> nat
    decreases s.len(),
{
    if s.len() == 0 {
        0
    } else {
        (decimal_value(s.drop_last()) * 10 + ((s.last() as nat) - ('0' as nat))) as nat
    }
}

/// `count` spaces.
pub open spec fn spaces(count: nat) -> Seq<char> {
    Seq::new(count, |i: int| ' ')
}

/// `s` with spaces put before it until it is `width` characters long; `s`
/// itself where it is that long already.
pub open spec fn right_aligned(s: Seq<char>, width: nat) -> Seq<char> {
    if s.len() >= width {
        s
    } else {
        spaces((width - s.len()) as nat) + s
    }
}

/// What a rendered line begins with: the line's number, right-aligned in the
/// gutter, then one space.
pub open spec fn line_prefix(index: nat) -> Seq<char> {
    right_aligned(decimal(index), GUTTER_WIDTH as nat).push(' ')
}

/// A number is read back from its decimal form: different numbers are written
/// differently.
pub proof fn lemma_decimal_value(n: nat)
    ensures
        decimal_value(decimal(n)) == n,
    decreases n,
{
    if n < 10 {
        let s = decimal(n);
        assert(s.drop_last() =~= Seq::<char>::empty());
        assert(decimal_value(s.drop_last()) == 0);
        assert(s.last() == digit(n));
    } else {
        lemma_decimal_value(n / 10);
        let s = decimal(n);
        assert(s.drop_last() =~= decimal(n / 10));
        assert(s.last() == digit(n % 10));
    }
}

/// The decimal form of a number holds digits only.
pub proof fn lemma_decimal_digits(n: nat)
    ensures
        forall|i: int| 0 <= i < decimal(n).len() ==> '0' <= #[trigger] decimal(n)[i] <= '9',
    decreases n,
{
    if n >= 10 {
        lemma_decimal_digits(n / 10);
        let front = decimal(n / 10);
        assert forall|i: int| 0 <= i < decimal(n).len() implies '0' <= #[trigger] decimal(n)[i]
            <= '9' by {
            if i < front.len() {
                assert(decimal(n)[i] == front[i]);
            } else {
                assert(decimal(n)[i] == digit(n % 10));
            }
        }
    }
}

/// The number of digits of `n`.
pub fn decimal_len(n: usize) -> (len: usize)
    ensures
        len == decimal(n as nat).len(),
        1 <= len <= n + 1,
    decreases n,
{
    if n < 10 {
        1
    } else {
        let shorter: usize = decimal_len(n / 10);
        shorter + 1
    }
}

/// Appends `n` in decimal to `out`.
pub fn push_decimal(out: &mut String, n: usize)
    ensures
        final(out)@ == old(out)@ + decimal(n as nat),
    decreases n,
{
    if n >= 10 {
        push_decimal(out, n / 10);
    }
    let low: u8 = (n % 10) as u8;
    let c: char = (low + 48) as char;
    assert(c == digit((n % 10) as nat));
    push_char(out, c);
    assert(out@ =~= old(out)@ + decimal(n as nat));
}

/// Appends the prefix of line `index` to `out`.
pub fn push_line_prefix(out: &mut String, index: usize)
    ensures
        final(out)@ == old(out)@ + line_prefix(index as nat),
{
    let ghost before = out@;
    let len: usize = decimal_len(index);
    let mut written: usize = len;
    while written < GUTTER_WIDTH
        invariant
            len <= written,
            written <= GUTTER_WIDTH || written == len,
            out@ == before + spaces((written - len) as nat),
        decreases GUTTER_WIDTH - written,
    {
        push_char(out, ' ');
        written += 1;
        assert(out@ =~= before + spaces((written - len) as nat));
    }
    push_decimal(out, index);
    push_char(out, ' ');
    assert(out@ =~= before + line_prefix(index as nat));
}

/// The prefix of line `index`.
pub fn line_number_prefix(index: usize) -> (prefix: String)
    ensures
        prefix@ == line_prefix(index as nat),
{
    let mut prefix = String::new();
    push_line_prefix(&mut prefix, index);
    assert(Seq::<char>::empty() + line_prefix(index as nat) =~= line_prefix(index as nat));
    prefix
}

} // verus!
