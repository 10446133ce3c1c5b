//! Building ASCII text in a byte vector.

use vstd::prelude::*;
use vstd::string::*;

verus! {

/// The bytes of a sequence of ASCII characters.
pub open spec fn ascii(s: Seq<char>) -> Seq<u8> {
    Seq::new(s.len(), |i: int| s[i] as u8)
}

/// Appends the bytes of the ASCII string `s` to `out`.
pub(crate) fn push_text(out: &mut Vec<u8>, s: &str)
    requires
        is_ascii(s),
    ensures
        final(out)@ == old(out)@ + ascii(s@),
{
    let bytes = s.as_bytes();
    proof {
        is_ascii_spec_bytes(s);
    }
    let mut i: usize = 0;
    while i < bytes.len()
        invariant
            i <= bytes@.len(),
            bytes@ == ascii(s@),
            out@ == old(out)@ + ascii(s@).subrange(0, i as int),
        decreases bytes@.len() - i,
    {
        out.push(bytes[i]);
        i += 1;
    }
    assert(ascii(s@).subrange(0, i as int) == ascii(s@));
}

/// The character of a decimal digit.
pub open spec fn digit(d: nat) -> u8 {
    (48 + d) as u8
}

/// A number in decimal, without sign or padding.
pub open spec fn decimal(n: nat) -> Seq<u8>
    decreases n,
{
    if n < 10 {
        seq![digit(n)]
    } else {
        decimal(n / 10).push(digit(n % 10))
    }
}

/// `n` blanks.
pub open spec fn spaces(n: nat) -> Seq<u8> {
    Seq::new(n, |i: int| 32u8)
}

/// `s` moved to the right edge of a field of `width` characters; a longer
/// `s` is left as it is.
pub open spec fn right_aligned(s: Seq<u8>, width: nat) -> Seq<u8> {
    if s.len() < width {
        spaces((width - s.len()) as nat) + s
    } else {
        s
    }
}

/// How many digits the numbers below a thousand have.
pub proof fn lemma_decimal_len(n: nat)
    ensures
        n < 10 ==> decimal(n).len() == 1,
        10 <= n < 100 ==> decimal(n).len() == 2,
        100 <= n < 1000 ==> decimal(n).len() == 3,
{
    reveal_with_fuel(decimal, 3);
}

/// Appends `n` in decimal.
pub fn push_decimal(out: &mut Vec<u8>, n: usize)
    ensures
        final(out)@ == old(out)@ + decimal(n as nat),
    decreases n,
{
    if n >= 10 {
        push_decimal(out, n / 10);
    }
    let d: u8 = (n % 10) as u8;
    out.push(48 + d);
    assert(out@ =~= old(out)@ + decimal(n as nat));
}

/// Appends a byte in decimal, right-aligned in a field of three characters.
pub fn push_aligned(out: &mut Vec<u8>, value: u8)
    ensures
        final(out)@ == old(out)@ + right_aligned(decimal(value as nat), 3),
{
    proof {
        lemma_decimal_len(value as nat);
    }
    if value < 100 {
        out.push(32);
    }
    if value < 10 {
        out.push(32);
    }
    push_decimal(out, value as usize);
    assert(out@ =~= old(out)@ + right_aligned(decimal(value as nat), 3));
}

} // verus!
