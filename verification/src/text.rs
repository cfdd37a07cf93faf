//! Byte strings and the ASCII text found in HTTP messages.

use vstd::prelude::*;
use vstd::slice::slice_to_vec;

verus! {

/// The bytes of a piece of ASCII text.
pub open spec fn ascii(s: Seq<char>) -> Seq<u8> {
    Seq::new(s.len(), |i: int| s[i] as u8)
}

/// ASCII lower-casing of one byte.
pub open spec fn lower(b: u8) -> u8 {
    if 'A' as u8 <= b && b <= 'Z' as u8 {
        (b + 32) as u8
    } else {
        b
    }
}

/// ASCII lower-casing of a byte string.
pub open spec fn lower_seq(s: Seq<u8>) -> Seq<u8> {
    Seq::new(s.len(), |i: int| lower(s[i]))
}

/// A decimal digit.
pub open spec fn is_digit(b: u8) -> bool {
    '0' as u8 <= b && b <= '9' as u8
}

/// The shortest decimal numeral of `n`.
pub open spec fn decimal(n: nat) -> Seq<u8>
    decreases n,
{
    if n < 10 {
        seq![('0' as u8 + n) as u8]
    } else {
        decimal(n / 10).push(('0' as u8 + n % 10) as u8)
    }
}

/// The number that a string of decimal digits denotes.
pub open spec fn decimal_value(s: Seq<u8>) -> nat
    decreases s.len(),
{
    if s.len() == 0 {
        0
    } else {
        (decimal_value(s.drop_last()) * 10 + (s.last() - '0' as u8)) as nat
    }
}

/// Whether `s` holds decimal digits only.
pub open spec fn all_digits(s: Seq<u8>) -> bool {
    forall|i: int| 0 <= i < s.len() ==> is_digit(#[trigger] s[i])
}

/// One lower-case hexadecimal digit.
pub open spec fn hex_digit(d: nat) -> u8 {
    if d < 10 {
        ('0' as u8 + d) as u8
    } else {
        ('a' as u8 + d - 10) as u8
    }
}

/// The shortest lower-case hexadecimal numeral of `n`.
pub open spec fn hex(n: nat) -> Seq<u8>
    decreases n,
{
    if n < 16 {
        seq![hex_digit(n)]
    } else {
        hex(n / 16).push(hex_digit(n % 16))
    }
}

/// `n` written with exactly two decimal digits.
pub open spec fn two_digits(n: nat) -> Seq<u8> {
    seq![('0' as u8 + (n / 10) % 10) as u8, ('0' as u8 + n % 10) as u8]
}

/// `n` written with exactly four decimal digits.
pub open spec fn four_digits(n: nat) -> Seq<u8> {
    two_digits(n / 100) + two_digits(n % 100)
}

/// ASCII lower-casing of one byte.
pub fn lower_byte(b: u8) -> (r: u8)
    ensures
        r == lower(b),
{
    if b >= 'A' as u8 && b <= 'Z' as u8 {
        b + 32
    } else {
        b
    }
}

/// Whether `b` is a decimal digit.
pub fn digit(b: u8) -> (r: bool)
    ensures
        r == is_digit(b),
{
    b >= '0' as u8 && b <= '9' as u8
}

/// Whether two byte strings are the same.
pub fn same_bytes(a: &[u8], b: &[u8]) -> (r: bool)
    ensures
        r == (a@ == b@),
{
    if a.len() != b.len() {
        return false;
    }
    let mut i: usize = 0;
    while i < a.len()
        invariant
            i <= a.len(),
            a.len() == b.len(),
            forall|j: int| 0 <= j < i ==> a@[j] == b@[j],
        decreases a.len() - i,
    {
        if a[i] != b[i] {
            return false;
        }
        i += 1;
    }
    assert(a@ =~= b@);
    true
}

/// Whether two byte strings are the same up to the case of ASCII letters.
pub fn same_bytes_nocase(a: &[u8], b: &[u8]) -> (r: bool)
    ensures
        r == (lower_seq(a@) == lower_seq(b@)),
{
    if a.len() != b.len() {
        assert(lower_seq(a@).len() != lower_seq(b@).len());
        return false;
    }
    let mut i: usize = 0;
    while i < a.len()
        invariant
            i <= a.len(),
            a.len() == b.len(),
            forall|j: int| 0 <= j < i ==> lower(a@[j]) == lower(b@[j]),
        decreases a.len() - i,
    {
        if lower_byte(a[i]) != lower_byte(b[i]) {
            assert(lower_seq(a@)[i as int] != lower_seq(b@)[i as int]);
            return false;
        }
        i += 1;
    }
    assert(lower_seq(a@) =~= lower_seq(b@));
    true
}

/// Whether `s` is exactly the ASCII text `t`.
pub fn is_text(s: &[u8], t: &str) -> (r: bool)
    requires
        t.is_ascii(),
    ensures
        r == (s@ == ascii(t@)),
{
    proof {
        vstd::string::is_ascii_spec_bytes(t);
    }
    let tb = t.as_bytes();
    assert(tb@ =~= ascii(t@));
    same_bytes(s, tb)
}

/// Whether `s` is the ASCII text `t` up to the case of letters.
pub fn is_text_nocase(s: &[u8], t: &str) -> (r: bool)
    requires
        t.is_ascii(),
    ensures
        r == (lower_seq(s@) == lower_seq(ascii(t@))),
{
    proof {
        vstd::string::is_ascii_spec_bytes(t);
    }
    let tb = t.as_bytes();
    assert(tb@ =~= ascii(t@));
    same_bytes_nocase(s, tb)
}

/// The bytes of the ASCII text `t`.
pub fn text_bytes(t: &str) -> (r: Vec<u8>)
    requires
        t.is_ascii(),
    ensures
        r@ == ascii(t@),
{
    proof {
        vstd::string::is_ascii_spec_bytes(t);
    }
    let tb = t.as_bytes();
    assert(tb@ =~= ascii(t@));
    slice_to_vec(tb)
}

/// Appends `b` to `out`.
pub fn push_bytes(out: &mut Vec<u8>, b: &[u8])
    ensures
        final(out)@ == old(out)@ + b@,
{
    let mut i: usize = 0;
    while i < b.len()
        invariant
            i <= b.len(),
            out@ == old(out)@ + b@.take(i as int),
        decreases b.len() - i,
    {
        out.push(b[i]);
        i += 1;
        assert(out@ =~= old(out)@ + b@.take(i as int));
    }
    assert(b@.take(b.len() as int) =~= b@);
}

/// Appends the ASCII text `t` to `out`.
pub fn push_text(out: &mut Vec<u8>, t: &str)
    requires
        t.is_ascii(),
    ensures
        final(out)@ == old(out)@ + ascii(t@),
{
    proof {
        vstd::string::is_ascii_spec_bytes(t);
    }
    let tb = t.as_bytes();
    assert(tb@ =~= ascii(t@));
    push_bytes(out, tb);
}

/// Appends the decimal numeral of `n` to `out`.
pub fn push_decimal(out: &mut Vec<u8>, n: u64)
    ensures
        final(out)@ == old(out)@ + decimal(n as nat),
    decreases n,
{
    if n >= 10 {
        push_decimal(out, n / 10);
    }
    out.push('0' as u8 + (n % 10) as u8);
    assert(out@ =~= old(out)@ + decimal(n as nat));
}

/// Appends the hexadecimal numeral of `n` to `out`.
pub fn push_hex(out: &mut Vec<u8>, n: u64)
    ensures
        final(out)@ == old(out)@ + hex(n as nat),
    decreases n,
{
    if n >= 16 {
        push_hex(out, n / 16);
    }
    let d: u8 = (n % 16) as u8;
    if d < 10 {
        out.push('0' as u8 + d);
    } else {
        out.push('a' as u8 + (d - 10));
    }
    assert(out@ =~= old(out)@ + hex(n as nat));
}

/// Appends `n`, which is below one hundred, as two decimal digits.
pub fn push_two_digits(out: &mut Vec<u8>, n: u64)
    requires
        n < 100,
    ensures
        final(out)@ == old(out)@ + two_digits(n as nat),
{
    out.push('0' as u8 + (n / 10) as u8);
    out.push('0' as u8 + (n % 10) as u8);
    assert(out@ =~= old(out)@ + two_digits(n as nat));
}

/// Appends `n`, which is below ten thousand, as four decimal digits.
pub fn push_four_digits(out: &mut Vec<u8>, n: u64)
    requires
        n < 10000,
    ensures
        final(out)@ == old(out)@ + four_digits(n as nat),
{
    push_two_digits(out, n / 100);
    push_two_digits(out, n % 100);
    assert(out@ =~= old(out)@ + four_digits(n as nat));
}

} // verus!
