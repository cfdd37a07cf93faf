//! Byte ranges: the `Range` header of a request, read against a file's size.
//!
//! One range is understood, in one of three forms: `bytes=first-last`,
//! `bytes=first-` and `bytes=-count` for the last `count` bytes. Numbers are
//! runs of decimal digits of any length.

use vstd::prelude::*;
use vstd::slice::slice_subrange;
use crate::text::{all_digits, ascii, decimal, decimal_value, digit, is_digit, is_text};

verus! {

/// A range of bytes that a file has: the offsets of its first and last byte.
#[derive(Debug, Clone, Copy, PartialEq, Eq, Structural)]
pub struct RangeSpec {
    pub start: u64,
    pub end: u64,
}

/// Whether `s` is two runs of digits with a dash at `k` between them. Either
/// run may be empty.
pub open spec fn splits_at(s: Seq<u8>, k: int) -> bool {
    &&& 0 <= k < s.len()
    &&& s[k] == '-' as u8
    &&& all_digits(s.take(k))
    &&& all_digits(s.skip(k + 1))
}

/// The bytes of a file of `size` bytes that the two numerals of a range ask
/// for, or nothing where they ask for none that the file has. An end beyond
/// the file is cut to the file's last byte.
pub open spec fn range_within(first: Seq<u8>, last: Seq<u8>, size: nat) -> Option<(nat, nat)> {
    if first.len() == 0 {
        let count = decimal_value(last);
        if last.len() == 0 || count == 0 || size == 0 {
            None
        } else if count >= size {
            Some((0nat, (size - 1) as nat))
        } else {
            Some(((size - count) as nat, (size - 1) as nat))
        }
    } else {
        let a = decimal_value(first);
        let b = decimal_value(last);
        if a >= size {
            None
        } else if last.len() == 0 || b >= size {
            Some((a, (size - 1) as nat))
        } else if b < a {
            None
        } else {
            Some((a, b))
        }
    }
}

/// The range that a `Range` header value selects of a file of `size` bytes.
/// A value in another unit, with more than one range, or otherwise not in
/// one of the three forms selects nothing, as does a range that the file
/// cannot satisfy.
pub open spec fn byte_range(header: Seq<u8>, size: nat) -> Option<(nat, nat)> {
    if header.len() >= 6 && header.take(6) == ascii("bytes="@) && exists|k: int|
        splits_at(header.skip(6), k) {
        let s = header.skip(6);
        let k = choose|k: int| splits_at(s, k);
        range_within(s.take(k), s.skip(k + 1), size)
    } else {
        None
    }
}

pub proof fn lemma_one_dash(s: Seq<u8>, k1: int, k2: int)
    requires
        splits_at(s, k1),
        splits_at(s, k2),
    ensures
        k1 == k2,
{
    if k1 < k2 {
        assert(s.take(k2)[k1] == s[k1]);
        assert(is_digit(s.take(k2)[k1]));
    }
    if k2 < k1 {
        assert(s.take(k1)[k2] == s[k2]);
        assert(is_digit(s.take(k1)[k2]));
    }
}

/// A decimal numeral is made of digits, and denotes the number that it was
/// written for.
pub proof fn lemma_decimal_is_read_back(n: nat)
    ensures
        decimal(n).len() >= 1,
        all_digits(decimal(n)),
        decimal_value(decimal(n)) == n,
    decreases n,
{
    if n >= 10 {
        lemma_decimal_is_read_back(n / 10);
        assert(decimal(n).drop_last() =~= decimal(n / 10));
    } else {
        assert(decimal(n).drop_last() =~= Seq::<u8>::empty());
        assert(decimal_value(Seq::<u8>::empty()) == 0);
    }
}

/// A header value made of the unit, a run of digits, a dash and a run of
/// digits selects what the two runs ask for.
pub proof fn lemma_range_of_parts(first: Seq<u8>, last: Seq<u8>, size: nat)
    requires
        all_digits(first),
        all_digits(last),
    ensures
        byte_range(ascii("bytes="@) + first + seq!['-' as u8] + last, size) == range_within(
            first,
            last,
            size,
        ),
{
    reveal_strlit("bytes=");
    let header = ascii("bytes="@) + first + seq!['-' as u8] + last;
    let s = header.skip(6);
    let k = first.len() as int;
    assert(header.take(6) =~= ascii("bytes="@));
    assert(s =~= first + seq!['-' as u8] + last);
    assert(s.take(k) =~= first);
    assert(s.skip(k + 1) =~= last);
    assert(splits_at(s, k));
    lemma_one_dash(s, k, choose|k: int| splits_at(s, k));
}

/// A range that the file has, written out in decimal, selects itself.
pub proof fn lemma_range_is_read_back(start: nat, end: nat, size: nat)
    requires
        start <= end < size,
    ensures
        byte_range(
            ascii("bytes="@) + decimal(start) + seq!['-' as u8] + decimal(end),
            size,
        ) == Some((start, end)),
{
    lemma_decimal_is_read_back(start);
    lemma_decimal_is_read_back(end);
    lemma_range_of_parts(decimal(start), decimal(end), size);
}

/// A range that the header selects lies inside the file.
pub proof fn lemma_range_in_file(header: Seq<u8>, size: nat)
    requires
        byte_range(header, size) is Some,
    ensures
        byte_range(header, size)->Some_0.0 <= byte_range(header, size)->Some_0.1 < size,
{
}

/// Reads the digits `lo..hi`. The flag is set where the number is too large
/// for a `u64`.
fn read_number(s: &[u8], lo: usize, hi: usize) -> (r: (u64, bool))
    requires
        lo <= hi <= s.len(),
        all_digits(s@.subrange(lo as int, hi as int)),
    ensures
        r.1 ==> decimal_value(s@.subrange(lo as int, hi as int)) > u64::MAX,
        !r.1 ==> r.0 == decimal_value(s@.subrange(lo as int, hi as int)),
{
    let mut v: u64 = 0;
    let mut over: bool = false;
    let mut i: usize = lo;
    while i < hi
        invariant
            lo <= i <= hi <= s.len(),
            all_digits(s@.subrange(lo as int, hi as int)),
            over ==> decimal_value(s@.subrange(lo as int, i as int)) > u64::MAX,
            !over ==> v == decimal_value(s@.subrange(lo as int, i as int)),
        decreases hi - i,
    {
        proof {
            let next = s@.subrange(lo as int, i + 1);
            assert(next.drop_last() =~= s@.subrange(lo as int, i as int));
            assert(next.last() == s@[i as int]);
            assert(s@.subrange(lo as int, hi as int)[i - lo] == s@[i as int]);
        }
        let d: u64 = (s[i] - '0' as u8) as u64;
        if !over {
            if v > (u64::MAX - d) / 10 {
                over = true;
            } else {
                v = v * 10 + d;
            }
        }
        i += 1;
    }
    (v, over)
}

/// The range that a `Range` header value selects of a file of `size` bytes.
pub fn parse_range(header: &[u8], size: u64) -> (r: Option<RangeSpec>)
    ensures
        match r {
            Some(range) => byte_range(header@, size as nat) == Some(
                (range.start as nat, range.end as nat),
            ) && range.start <= range.end < size,
            None => byte_range(header@, size as nat).is_none(),
        },
{
    proof {
        reveal_strlit("bytes=");
    }
    if header.len() < 6 {
        return None;
    }
    let unit = slice_subrange(header, 0, 6);
    assert(unit@ =~= header@.take(6));
    if !is_text(unit, "bytes=") {
        return None;
    }
    let s = slice_subrange(header, 6, header.len());
    assert(s@ =~= header@.skip(6));
    let mut k: usize = 0;
    while k < s.len() && digit(s[k])
        invariant
            k <= s.len(),
            forall|i: int| 0 <= i < k ==> is_digit(#[trigger] s@[i]),
        decreases s.len() - k,
    {
        k += 1;
    }
    if k == s.len() || s[k] != '-' as u8 {
        assert forall|other: int| !splits_at(s@, other) by {
            if splits_at(s@, other) {
                if other < k {
                    assert(is_digit(s@[other]));
                } else if other > k {
                    assert(s@.take(other)[k as int] == s@[k as int]);
                }
            }
        }
        return None;
    }
    let mut j: usize = k + 1;
    while j < s.len() && digit(s[j])
        invariant
            k < j <= s.len(),
            forall|i: int| k < i < j ==> is_digit(#[trigger] s@[i]),
        decreases s.len() - j,
    {
        j += 1;
    }
    if j < s.len() {
        assert forall|other: int| !splits_at(s@, other) by {
            if splits_at(s@, other) {
                if other < k {
                    assert(is_digit(s@[other]));
                } else if other > k {
                    assert(s@.take(other)[k as int] == s@[k as int]);
                } else {
                    assert(s@.skip(k + 1)[j - k - 1] == s@[j as int]);
                }
            }
        }
        return None;
    }
    proof {
        assert(all_digits(s@.take(k as int)));
        assert(all_digits(s@.skip(k + 1)));
        assert(splits_at(s@, k as int));
        lemma_one_dash(s@, k as int, choose|k: int| splits_at(s@, k));
        assert(s@.subrange(0, k as int) =~= s@.take(k as int));
        assert(s@.subrange(k + 1, s@.len() as int) =~= s@.skip(k + 1));
    }
    let (a, a_over) = read_number(s, 0, k);
    let (b, b_over) = read_number(s, k + 1, s.len());
    if k == 0 {
        if k + 1 == s.len() || (!b_over && b == 0) || size == 0 {
            None
        } else if b_over || b >= size {
            Some(RangeSpec { start: 0, end: size - 1 })
        } else {
            Some(RangeSpec { start: size - b, end: size - 1 })
        }
    } else {
        if a_over || a >= size {
            None
        } else if k + 1 == s.len() || b_over || b >= size {
            Some(RangeSpec { start: a, end: size - 1 })
        } else if b < a {
            None
        } else {
            Some(RangeSpec { start: a, end: b })
        }
    }
}

} // verus!
