//! File attributes, the entity tag derived from them, and conditional requests.

use vstd::prelude::*;
use vstd::slice::slice_subrange;
use crate::date::{
    http_date, lemma_http_date_is_read_back, parse_http_date, parsed_http_date, END_OF_DATES,
};
use crate::text::{hex, hex_digit, push_hex, same_bytes};

verus! {

/// The attributes of a file that its validators are made of.
#[derive(Debug, Clone, Copy, PartialEq, Eq, Structural)]
pub struct Stat {
    /// The size in bytes.
    pub size: u64,
    /// The time of the last change: whole seconds since the Unix epoch.
    pub modified_secs: u64,
    /// The nanoseconds that go with `modified_secs`.
    pub modified_nanos: u32,
}

/// The entity tag of a file: size and time of the last change in
/// hexadecimal, joined by dashes, between double quotes.
pub open spec fn etag_of(stat: Stat) -> Seq<u8> {
    seq!['"' as u8] + hex(stat.size as nat) + seq!['-' as u8] + hex(stat.modified_secs as nat)
        + seq!['-' as u8] + hex(stat.modified_nanos as nat) + seq!['"' as u8]
}

/// Optional whitespace of a header value: space and tab.
pub open spec fn is_ows(b: u8) -> bool {
    b == ' ' as u8 || b == '\t' as u8
}

/// `s` without the whitespace at its start.
pub open spec fn trim_start(s: Seq<u8>) -> Seq<u8>
    decreases s.len(),
{
    if s.len() > 0 && is_ows(s[0]) {
        trim_start(s.skip(1))
    } else {
        s
    }
}

/// `s` without the whitespace at its end.
pub open spec fn trim_end(s: Seq<u8>) -> Seq<u8>
    decreases s.len(),
{
    if s.len() > 0 && is_ows(s.last()) {
        trim_end(s.drop_last())
    } else {
        s
    }
}

/// `s` without the whitespace at its two ends.
pub open spec fn trimmed(s: Seq<u8>) -> Seq<u8> {
    trim_end(trim_start(s))
}

/// Whether an entity tag carries the mark of a weak validator, `W/`.
pub open spec fn is_weak(tag: Seq<u8>) -> bool {
    tag.len() >= 2 && tag[0] == 'W' as u8 && tag[1] == '/' as u8
}

/// An entity tag without the mark of a weak validator.
pub open spec fn opaque_tag(tag: Seq<u8>) -> Seq<u8> {
    if is_weak(tag) {
        tag.skip(2)
    } else {
        tag
    }
}

/// Whether `i..j` is one member of the comma-separated list `h`: it reaches
/// from the start or a comma to the end or the next comma.
pub open spec fn is_item(h: Seq<u8>, i: int, j: int) -> bool {
    &&& 0 <= i <= j <= h.len()
    &&& (i == 0 || h[i - 1] == ',' as u8)
    &&& (j == h.len() || h[j] == ',' as u8)
    &&& forall|k: int| i <= k < j ==> h[k] != ',' as u8
}

/// Whether one list member selects the entity tag: it is `*`, or it is the
/// tag itself, the weak mark on either side set aside.
pub open spec fn item_matches(item: Seq<u8>, etag: Seq<u8>) -> bool {
    trimmed(item) == seq!['*' as u8] || opaque_tag(trimmed(item)) == opaque_tag(etag)
}

/// Whether an `If-None-Match` value selects the entity tag.
pub open spec fn none_match_hit(h: Seq<u8>, etag: Seq<u8>) -> bool {
    exists|i: int, j: int| #[trigger] is_item(h, i, j) && item_matches(h.subrange(i, j), etag)
}

/// Whether the conditions of a request say that the client's copy is
/// current. `If-None-Match` decides where it is present. Otherwise
/// `If-Modified-Since` does, where it is a date not before the last change.
pub open spec fn not_modified(
    stat: Stat,
    if_none_match: Option<Seq<u8>>,
    if_modified_since: Option<Seq<u8>>,
) -> bool {
    match if_none_match {
        Some(h) => none_match_hit(h, etag_of(stat)),
        None => match if_modified_since {
            Some(h) => match parsed_http_date(h) {
                Some(t) => stat.modified_secs <= t,
                None => false,
            },
            None => false,
        },
    }
}

/// The view of an optional header value.
pub open spec fn opt_bytes(v: Option<Vec<u8>>) -> Option<Seq<u8>> {
    match v {
        Some(b) => Some(b@),
        None => None,
    }
}

/// What a server knows of a file when it answers for it.
#[derive(Debug, PartialEq, Eq)]
pub struct FileMetadata {
    stat: Stat,
    etag: Vec<u8>,
}

impl View for FileMetadata {
    type V = Stat;

    closed spec fn view(&self) -> Stat {
        self.stat
    }
}

impl FileMetadata {
    #[verifier::type_invariant]
    spec fn tagged(self) -> bool {
        self.etag@ == etag_of(self.stat)
    }

    /// Attributes as read from the filesystem, with the entity tag worked out.
    pub fn new(size: u64, modified_secs: u64, modified_nanos: u32) -> (r: FileMetadata)
        ensures
            r@ == (Stat { size, modified_secs, modified_nanos }),
    {
        let stat = Stat { size, modified_secs, modified_nanos };
        let mut etag: Vec<u8> = Vec::new();
        etag.push('"' as u8);
        push_hex(&mut etag, size);
        etag.push('-' as u8);
        push_hex(&mut etag, modified_secs);
        etag.push('-' as u8);
        push_hex(&mut etag, modified_nanos as u64);
        etag.push('"' as u8);
        assert(etag@ =~= etag_of(stat));
        FileMetadata { stat, etag }
    }

    /// The size in bytes.
    pub fn size(&self) -> (r: u64)
        ensures
            r == self@.size,
    {
        self.stat.size
    }

    /// The time of the last change: whole seconds since the Unix epoch.
    pub fn modified_secs(&self) -> (r: u64)
        ensures
            r == self@.modified_secs,
    {
        self.stat.modified_secs
    }

    /// The nanoseconds that go with the seconds of the last change.
    pub fn modified_nanos(&self) -> (r: u32)
        ensures
            r == self@.modified_nanos,
    {
        self.stat.modified_nanos
    }

    /// The entity tag.
    pub fn etag(&self) -> (r: &[u8])
        ensures
            r@ == etag_of(self@),
    {
        proof {
            use_type_invariant(self);
        }
        self.etag.as_slice()
    }

    /// Whether the conditions of a request say that the client's copy is current.
    pub fn is_current_for(
        &self,
        if_none_match: &Option<Vec<u8>>,
        if_modified_since: &Option<Vec<u8>>,
    ) -> (r: bool)
        ensures
            r == not_modified(self@, opt_bytes(*if_none_match), opt_bytes(*if_modified_since)),
    {
        match if_none_match {
            Some(h) => if_none_match_hit(h.as_slice(), self.etag()),
            None => match if_modified_since {
                Some(h) => match parse_http_date(h.as_slice()) {
                    Some(t) => self.stat.modified_secs <= t,
                    None => false,
                },
                None => false,
            },
        }
    }
}

fn ows(b: u8) -> (r: bool)
    ensures
        r == is_ows(b),
{
    b == ' ' as u8 || b == '\t' as u8
}

fn strip_weak(tag: &[u8]) -> (r: &[u8])
    ensures
        r@ == opaque_tag(tag@),
{
    if tag.len() >= 2 && tag[0] == 'W' as u8 && tag[1] == '/' as u8 {
        let r = slice_subrange(tag, 2, tag.len());
        assert(r@ =~= tag@.skip(2));
        r
    } else {
        tag
    }
}

fn item_hit(h: &[u8], lo: usize, hi: usize, etag: &[u8]) -> (r: bool)
    requires
        lo <= hi <= h.len(),
    ensures
        r == item_matches(h@.subrange(lo as int, hi as int), etag@),
{
    let mut a: usize = lo;
    while a < hi && ows(h[a])
        invariant
            lo <= a <= hi <= h.len(),
            trim_start(h@.subrange(lo as int, hi as int)) == trim_start(
                h@.subrange(a as int, hi as int),
            ),
        decreases hi - a,
    {
        assert(h@.subrange(a as int, hi as int).skip(1) =~= h@.subrange(a + 1, hi as int));
        a += 1;
    }
    let mut b: usize = hi;
    while b > a && ows(h[b - 1])
        invariant
            a <= b <= hi <= h.len(),
            trim_end(h@.subrange(a as int, hi as int)) == trim_end(
                h@.subrange(a as int, b as int),
            ),
        decreases b - a,
    {
        assert(h@.subrange(a as int, b as int).drop_last() =~= h@.subrange(a as int, b - 1));
        b -= 1;
    }
    let item = slice_subrange(h, a, b);
    assert(item@ == trimmed(h@.subrange(lo as int, hi as int)));
    if item.len() == 1 && item[0] == '*' as u8 {
        assert(item@ =~= seq!['*' as u8]);
        true
    } else {
        same_bytes(strip_weak(item), strip_weak(etag))
    }
}

/// Whether an `If-None-Match` value selects the entity tag.
pub fn if_none_match_hit(h: &[u8], etag: &[u8]) -> (r: bool)
    ensures
        r == none_match_hit(h@, etag@),
{
    let mut start: usize = 0;
    let mut pos: usize = 0;
    loop
        invariant
            start <= pos <= h.len(),
            start == 0 || h@[start - 1] == ',' as u8,
            forall|k: int| start <= k < pos ==> h@[k] != ',' as u8,
            forall|i: int, j: int|
                #[trigger] is_item(h@, i, j) && j < start ==> !item_matches(
                    h@.subrange(i, j),
                    etag@,
                ),
        decreases h.len() - pos,
    {
        if pos == h.len() || h[pos] == ',' as u8 {
            assert(is_item(h@, start as int, pos as int));
            let hit = item_hit(h, start, pos, etag);
            if hit {
                return true;
            }
            assert forall|i: int, j: int| #[trigger] is_item(h@, i, j) && j <= pos implies !item_matches(
                h@.subrange(i, j),
                etag@,
            ) by {
                if is_item(h@, i, j) && start <= j <= pos {
                    assert(j == pos);
                    if i < start {
                        assert(h@[start - 1] == ',' as u8);
                    }
                    if i > start {
                        assert(h@[i - 1] == ',' as u8);
                    }
                    assert(i == start);
                }
            }
            if pos == h.len() {
                return false;
            }
            start = pos + 1;
        }
        pos += 1;
    }
}

/// A hexadecimal numeral is not empty, and is made of digits and the
/// letters `a` to `f`.
pub proof fn lemma_hex_digits(n: nat)
    ensures
        hex(n).len() >= 1,
        forall|i: int|
            0 <= i < hex(n).len() ==> ('0' as u8 <= #[trigger] hex(n)[i] <= '9' as u8) || ('a' as u8
                <= hex(n)[i] <= 'f' as u8),
    decreases n,
{
    if n >= 16 {
        lemma_hex_digits(n / 16);
    }
}

/// The number that a lower-case hexadecimal numeral denotes.
pub open spec fn hex_number(s: Seq<u8>) -> nat
    decreases s.len(),
{
    if s.len() == 0 {
        0
    } else {
        let d = if s.last() <= '9' as u8 {
            s.last() - '0' as u8
        } else {
            s.last() - 'a' as u8 + 10
        };
        (hex_number(s.drop_last()) * 16 + d) as nat
    }
}

/// A hexadecimal numeral denotes the number that it was written for.
pub proof fn lemma_hex_number(n: nat)
    ensures
        hex_number(hex(n)) == n,
    decreases n,
{
    assert(hex(n).last() == hex_digit(n % 16));
    if n >= 16 {
        lemma_hex_number(n / 16);
        assert(hex(n).drop_last() =~= hex(n / 16));
    } else {
        assert(hex(n).drop_last() =~= Seq::<u8>::empty());
        assert(hex_number(Seq::<u8>::empty()) == 0);
    }
}

/// Two texts that agree, each cut at a mark that its front part does not
/// hold, agree part by part.
pub proof fn lemma_cut_at_mark(a: Seq<u8>, x: Seq<u8>, b: Seq<u8>, y: Seq<u8>, mark: u8)
    requires
        a + seq![mark] + x == b + seq![mark] + y,
        forall|i: int| 0 <= i < a.len() ==> a[i] != mark,
        forall|i: int| 0 <= i < b.len() ==> b[i] != mark,
    ensures
        a == b,
        x == y,
{
    let l = a + seq![mark] + x;
    let r = b + seq![mark] + y;
    if a.len() < b.len() {
        assert(l[a.len() as int] == mark);
        assert(r[a.len() as int] == b[a.len() as int]);
        assert(false);
    }
    if b.len() < a.len() {
        assert(r[b.len() as int] == mark);
        assert(l[b.len() as int] == a[b.len() as int]);
        assert(false);
    }
    assert forall|i: int| 0 <= i < a.len() implies a[i] == b[i] by {
        assert(l[i] == a[i]);
        assert(r[i] == b[i]);
    }
    assert(a =~= b);
    assert(l.len() == a.len() + 1 + x.len());
    assert(r.len() == b.len() + 1 + y.len());
    assert(x.len() == y.len());
    assert forall|i: int| 0 <= i < x.len() implies x[i] == y[i] by {
        assert(l[a.len() + 1 + i] == x[i]);
        assert(r[b.len() + 1 + i] == y[i]);
    }
    assert(x =~= y);
}

/// Files with the same entity tag have the same size and the same time of
/// last change: a change to either changes the tag.
pub proof fn lemma_etag_tells_apart(a: Stat, b: Stat)
    requires
        etag_of(a) == etag_of(b),
    ensures
        a == b,
{
    let q = seq!['"' as u8];
    let dash = seq!['-' as u8];
    let (a1, a2, a3) = (hex(a.size as nat), hex(a.modified_secs as nat), hex(a.modified_nanos as nat));
    let (b1, b2, b3) = (hex(b.size as nat), hex(b.modified_secs as nat), hex(b.modified_nanos as nat));
    lemma_hex_digits(a.size as nat);
    lemma_hex_digits(a.modified_secs as nat);
    lemma_hex_digits(a.modified_nanos as nat);
    lemma_hex_digits(b.size as nat);
    lemma_hex_digits(b.modified_secs as nat);
    lemma_hex_digits(b.modified_nanos as nat);
    let ta = a2 + dash + (a3 + q);
    let tb = b2 + dash + (b3 + q);
    assert(etag_of(a).skip(1) =~= a1 + dash + ta);
    assert(etag_of(b).skip(1) =~= b1 + dash + tb);
    lemma_cut_at_mark(a1, ta, b1, tb, '-' as u8);
    lemma_cut_at_mark(a2, a3 + q, b2, b3 + q, '-' as u8);
    assert((a3 + q).drop_last() =~= a3);
    assert((b3 + q).drop_last() =~= b3);
    lemma_hex_number(a.size as nat);
    lemma_hex_number(a.modified_secs as nat);
    lemma_hex_number(a.modified_nanos as nat);
    lemma_hex_number(b.size as nat);
    lemma_hex_number(b.modified_secs as nat);
    lemma_hex_number(b.modified_nanos as nat);
}

/// An entity tag is quoted, and holds neither a comma nor whitespace.
pub proof fn lemma_etag_shape(stat: Stat)
    ensures
        etag_of(stat).len() >= 7,
        etag_of(stat)[0] == '"' as u8,
        etag_of(stat).last() == '"' as u8,
        forall|i: int|
            0 <= i < etag_of(stat).len() ==> #[trigger] etag_of(stat)[i] != ',' as u8 && !is_ows(
                etag_of(stat)[i],
            ),
{
    let (h1, h2, h3) = (
        hex(stat.size as nat),
        hex(stat.modified_secs as nat),
        hex(stat.modified_nanos as nat),
    );
    lemma_hex_digits(stat.size as nat);
    lemma_hex_digits(stat.modified_secs as nat);
    lemma_hex_digits(stat.modified_nanos as nat);
    let e = etag_of(stat);
    assert forall|i: int| 0 <= i < e.len() implies #[trigger] e[i] != ',' as u8 && !is_ows(
        e[i],
    ) by {
        if i == 0 {
        } else if i < 1 + h1.len() {
            assert(e[i] == h1[i - 1]);
        } else if i == 1 + h1.len() {
        } else if i < 2 + h1.len() + h2.len() {
            assert(e[i] == h2[i - 2 - h1.len()]);
        } else if i == 2 + h1.len() + h2.len() {
        } else if i < 3 + h1.len() + h2.len() + h3.len() {
            assert(e[i] == h3[i - 3 - h1.len() - h2.len()]);
        } else {
        }
    }
}

/// A request that hands a file's own entity tag back in `If-None-Match`
/// is told that its copy is current.
pub proof fn lemma_own_etag_is_current(stat: Stat, if_modified_since: Option<Seq<u8>>)
    ensures
        not_modified(stat, Some(etag_of(stat)), if_modified_since),
{
    let e = etag_of(stat);
    lemma_etag_shape(stat);
    assert(is_item(e, 0, e.len() as int));
    assert(e.subrange(0, e.len() as int) =~= e);
    assert(trim_start(e) == e);
    assert(trim_end(e) == e);
    assert(item_matches(e.subrange(0, e.len() as int), e));
}

/// A request that hands the date of a file's last change back in
/// `If-Modified-Since`, and names no entity tag, is told that its copy is
/// current.
pub proof fn lemma_own_date_is_current(stat: Stat)
    requires
        stat.modified_secs < END_OF_DATES,
    ensures
        not_modified(stat, None, Some(http_date(stat.modified_secs as int))),
{
    lemma_http_date_is_read_back(stat.modified_secs as int);
}

} // verus!
