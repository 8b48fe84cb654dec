//! Building text: single characters and whole numbers in decimal.

use vstd::prelude::*;
use vstd::string::*;

verus! {

/// The character for the decimal digit `d`.
pub open spec fn digit(d: int) -> char {
    "0123456789"@[d]
}

/// The decimal digits of `n`, the most significant first, with no leading
/// zero but for zero itself.
pub open spec fn digits(n: nat) -> Seq<char>
    decreases n,
{
    if n < 10 {
        seq![digit(n as int)]
    } else {
        digits(n / 10).push(digit((n % 10) as int))
    }
}

/// The number `n` in decimal, filled with zeros up to `width` characters: a
/// minus sign first if `n` is negative, then the zeros, then the digits. A
/// number too long for `width` is written in full.
pub open spec fn padded(n: int, width: nat) -> Seq<char> {
    let body = digits(if n < 0 { (-n) as nat } else { n as nat });
    let sign = if n < 0 {
        seq!['-']
    } else {
        Seq::<char>::empty()
    };
    let used = sign.len() + body.len();
    let fill = Seq::new(
        if used < width {
            (width - used) as nat
        } else {
            0
        },
        |i: int| '0',
    );
    sign + fill + body
}

/// `String::push` of the standard library: the character is appended to the
/// end of the string and nothing else changes.
#[verifier::external_body]
pub(crate) fn push_char(s: &mut String, c: char)
    ensures
        final(s)@ == old(s)@.push(c),
{
    s.push(c);
}

/// Appends the decimal digits of `n` to `out`.
fn push_digits(out: &mut String, n: u64)
    ensures
        final(out)@ == old(out)@ + digits(n as nat),
    decreases n,
{
    if n >= 10 {
        push_digits(out, n / 10);
    }
    proof {
        reveal_strlit("0123456789");
    }
    let d: usize = (n % 10) as usize;
    push_char(out, "0123456789".get_char(d));
    assert(out@ =~= old(out)@ + digits(n as nat));
}

/// The number of decimal digits of `n`.
fn count_digits(n: u64) -> (k: u64)
    ensures
        k == digits(n as nat).len(),
        n < 10 ==> k == 1,
        n >= 10 ==> k <= n,
    decreases n,
{
    if n < 10 {
        1
    } else {
        1 + count_digits(n / 10)
    }
}

/// Appends `n` to `out`, in decimal and filled with zeros up to `width`
/// characters.
pub fn push_padded(out: &mut String, n: i64, width: u64)
    ensures
        final(out)@ == old(out)@ + padded(n as int, width as nat),
{
    let size: u64 = if n >= 0 {
        n as u64
    } else if n == i64::MIN {
        9223372036854775808u64
    } else {
        (-n) as u64
    };
    let mut used: u64 = count_digits(size);
    if n < 0 {
        push_char(out, '-');
        used = used + 1;
    }
    let ghost start = out@;
    let target: u64 = if used < width {
        width - used
    } else {
        0
    };
    let mut i: u64 = 0;
    while i < target
        invariant
            i <= target,
            out@ == start + Seq::new(i as nat, |j: int| '0'),
        decreases target - i,
    {
        push_char(out, '0');
        assert(out@ =~= start + Seq::new((i + 1) as nat, |j: int| '0'));
        i += 1;
    }
    push_digits(out, size);
    assert(out@ =~= old(out)@ + padded(n as int, width as nat));
}

} // verus!
