//! The path resolver: from a request path to a place under the served root.
//!
//! Resolution has a lexical half and a filesystem half. [`locate`] decodes the
//! request path, walks its segments from the root and refuses a walk that ends
//! outside the root, before anything is looked up. The caller then asks the
//! filesystem for the canonical form of the path it was given, and
//! [`confirm`] refuses what lies outside the root after symbolic links were
//! followed.

use vstd::prelude::*;
use vstd::slice::{slice_subrange, slice_to_vec};
use crate::text::{ascii, is_digit, push_bytes, push_text, same_bytes};

verus! {

/// A hexadecimal digit, in either case.
pub open spec fn is_hex(b: u8) -> bool {
    is_digit(b) || ('a' as u8 <= b && b <= 'f' as u8) || ('A' as u8 <= b && b <= 'F' as u8)
}

/// The number that a hexadecimal digit stands for.
pub open spec fn hex_value(b: u8) -> nat {
    if is_digit(b) {
        (b - '0' as u8) as nat
    } else if 'a' as u8 <= b && b <= 'f' as u8 {
        (b - 'a' as u8 + 10) as nat
    } else {
        (b - 'A' as u8 + 10) as nat
    }
}

/// Whether a percent-escape starts at `i`: a `%` and two hexadecimal digits.
pub open spec fn is_escape(s: Seq<u8>, i: int) -> bool {
    &&& 0 <= i && i + 2 < s.len()
    &&& s[i] == '%' as u8
    &&& is_hex(s[i + 1])
    &&& is_hex(s[i + 2])
}

/// Percent-decoding. An escape stands for the byte that its two digits name;
/// every other byte, a `%` that starts no escape included, stands for itself.
pub open spec fn percent_decoded(s: Seq<u8>) -> Seq<u8>
    decreases s.len(),
{
    if s.len() == 0 {
        Seq::empty()
    } else if is_escape(s, 0) {
        seq![(hex_value(s[1]) * 16 + hex_value(s[2])) as u8] + percent_decoded(s.skip(3))
    } else {
        seq![s[0]] + percent_decoded(s.skip(1))
    }
}

/// The pieces of `s` between occurrences of `sep`. There is always at least
/// one piece, and pieces may be empty.
pub open spec fn split(s: Seq<u8>, sep: u8) -> Seq<Seq<u8>>
    decreases s.len(),
{
    if s.len() == 0 {
        seq![Seq::empty()]
    } else {
        let before = split(s.drop_last(), sep);
        if s.last() == sep {
            before.push(Seq::empty())
        } else {
            before.drop_last().push(before.last().push(s.last()))
        }
    }
}

/// The segment `.`, which names the directory it stands in.
pub open spec fn is_dot(seg: Seq<u8>) -> bool {
    seg.len() == 1 && seg[0] == '.' as u8
}

/// The segment `..`, which names the parent directory.
pub open spec fn is_dotdot(seg: Seq<u8>) -> bool {
    seg.len() == 2 && seg[0] == '.' as u8 && seg[1] == '.' as u8
}

/// A segment that names a directory entry.
pub open spec fn is_name(seg: Seq<u8>) -> bool {
    seg.len() > 0 && !is_dot(seg) && !is_dotdot(seg)
}

/// One step of a walk. An empty segment and `.` stay in place, `..` goes to
/// the parent (the top directory is its own parent), a name goes down.
pub open spec fn walk_step(at: Seq<Seq<u8>>, seg: Seq<u8>) -> Seq<Seq<u8>> {
    if seg.len() == 0 || is_dot(seg) {
        at
    } else if is_dotdot(seg) {
        if at.len() > 0 {
            at.drop_last()
        } else {
            at
        }
    } else {
        at.push(seg)
    }
}

/// The directory reached from `from` by taking the segments in order.
pub open spec fn walk(from: Seq<Seq<u8>>, segs: Seq<Seq<u8>>) -> Seq<Seq<u8>>
    decreases segs.len(),
{
    if segs.len() == 0 {
        from
    } else {
        walk_step(walk(from, segs.drop_last()), segs.last())
    }
}

/// Whether the place `path` is `root` itself or lies below it.
pub open spec fn is_within(root: Seq<Seq<u8>>, path: Seq<Seq<u8>>) -> bool {
    root.len() <= path.len() && path.take(root.len() as int) == root
}

/// The place that a request path names, read from `root`.
pub open spec fn target(root: Seq<Seq<u8>>, request_path: Seq<u8>) -> Seq<Seq<u8>> {
    walk(root, split(percent_decoded(request_path), '/' as u8))
}

/// Each segment with a slash before it.
pub open spec fn joined(segs: Seq<Seq<u8>>) -> Seq<u8>
    decreases segs.len(),
{
    if segs.len() == 0 {
        Seq::empty()
    } else {
        joined(segs.drop_last()) + seq!['/' as u8] + segs.last()
    }
}

/// The absolute path text of a place; the top directory is `/`.
pub open spec fn path_text(segs: Seq<Seq<u8>>) -> Seq<u8> {
    if segs.len() == 0 {
        seq!['/' as u8]
    } else {
        joined(segs)
    }
}

/// The segments of a canonical absolute path: the text starts with a slash,
/// and what follows is names separated by single slashes. Any other text has
/// none.
pub open spec fn canonical_segments(text: Seq<u8>) -> Option<Seq<Seq<u8>>> {
    if text.len() == 0 || text[0] != '/' as u8 {
        None
    } else if text.len() == 1 {
        Some(Seq::empty())
    } else {
        let segs = split(text.skip(1), '/' as u8);
        if forall|i: int| 0 <= i < segs.len() ==> is_name(#[trigger] segs[i]) {
            Some(segs)
        } else {
            None
        }
    }
}

/// The byte strings that a vector of vectors holds.
pub open spec fn names(v: Seq<Vec<u8>>) -> Seq<Seq<u8>> {
    Seq::new(v.len(), |i: int| v[i]@)
}

/// A segment without a slash in it.
pub open spec fn no_slash(seg: Seq<u8>) -> bool {
    forall|i: int| 0 <= i < seg.len() ==> seg[i] != '/' as u8
}

/// Segments that spell out a place: each is a name without a slash in it.
pub open spec fn is_place(segs: Seq<Seq<u8>>) -> bool {
    forall|i: int| 0 <= i < segs.len() ==> is_name(#[trigger] segs[i]) && no_slash(segs[i])
}

/// No piece of a split holds the separator.
pub proof fn lemma_split_pieces(s: Seq<u8>, sep: u8)
    ensures
        split(s, sep).len() >= 1,
        forall|i: int, j: int|
            0 <= i < split(s, sep).len() && 0 <= j < split(s, sep)[i].len() ==> #[trigger] split(
                s,
                sep,
            )[i][j] != sep,
    decreases s.len(),
{
    if s.len() > 0 {
        lemma_split_pieces(s.drop_last(), sep);
    }
}

/// Text after a separator, with no separator in it, is the last piece.
pub proof fn lemma_split_last_piece(a: Seq<u8>, b: Seq<u8>, sep: u8)
    requires
        forall|j: int| 0 <= j < b.len() ==> b[j] != sep,
    ensures
        split(a + seq![sep] + b, sep) == split(a, sep).push(b),
    decreases b.len(),
{
    let whole = a + seq![sep] + b;
    if b.len() == 0 {
        assert(whole.drop_last() =~= a);
        assert(b =~= Seq::<u8>::empty());
    } else {
        let front = b.drop_last();
        lemma_split_last_piece(a, front, sep);
        assert(whole.drop_last() =~= a + seq![sep] + front);
        assert(whole.last() == b.last());
        assert(split(a, sep).push(front).drop_last() =~= split(a, sep));
        assert(front.push(b.last()) =~= b);
    }
}

/// Text with no separator in it is one piece.
pub proof fn lemma_split_one_piece(b: Seq<u8>, sep: u8)
    requires
        forall|j: int| 0 <= j < b.len() ==> b[j] != sep,
    ensures
        split(b, sep) == seq![b],
    decreases b.len(),
{
    if b.len() == 0 {
        assert(b =~= Seq::<u8>::empty());
    } else {
        lemma_split_one_piece(b.drop_last(), sep);
        assert(b.drop_last().push(b.last()) =~= b);
        assert(seq![b.drop_last()].drop_last().push(b) =~= seq![b]);
    }
}

/// The text of a place on which at least one segment stands starts with a
/// slash, and splits into the segments again.
pub proof fn lemma_joined_splits(segs: Seq<Seq<u8>>)
    requires
        is_place(segs),
        segs.len() > 0,
    ensures
        joined(segs).len() >= 2,
        joined(segs)[0] == '/' as u8,
        split(joined(segs).skip(1), '/' as u8) == segs,
    decreases segs.len(),
{
    let init = segs.drop_last();
    let last = segs.last();
    assert(is_name(last) && no_slash(last));
    if init.len() == 0 {
        assert(joined(init) =~= Seq::<u8>::empty());
        assert(joined(segs).skip(1) =~= last);
        lemma_split_one_piece(last, '/' as u8);
        assert(seq![last] =~= segs);
    } else {
        assert(is_place(init)) by {
            assert forall|i: int| 0 <= i < init.len() implies is_name(#[trigger] init[i])
                && no_slash(init[i]) by {
                assert(init[i] == segs[i]);
            }
        }
        lemma_joined_splits(init);
        assert(joined(segs).skip(1) =~= joined(init).skip(1) + seq!['/' as u8] + last);
        lemma_split_last_piece(joined(init).skip(1), last, '/' as u8);
        assert(init.push(last) =~= segs);
    }
}

/// The path text of a place is canonical, and its segments are the place.
pub proof fn lemma_path_text_is_read_back(segs: Seq<Seq<u8>>)
    requires
        is_place(segs),
    ensures
        canonical_segments(path_text(segs)) == Some(segs),
{
    if segs.len() == 0 {
        assert(segs =~= Seq::<Seq<u8>>::empty());
    } else {
        lemma_joined_splits(segs);
    }
}

/// The segments of a canonical path spell out a place.
pub proof fn lemma_canonical_is_place(text: Seq<u8>)
    requires
        canonical_segments(text) is Some,
    ensures
        is_place(canonical_segments(text)->Some_0),
{
    if text.len() > 1 {
        lemma_split_pieces(text.skip(1), '/' as u8);
    }
}

/// A walk from a place over the pieces of a split ends in a place.
pub proof fn lemma_walk_ends_in_place(from: Seq<Seq<u8>>, segs: Seq<Seq<u8>>)
    requires
        is_place(from),
        forall|i: int| 0 <= i < segs.len() ==> no_slash(#[trigger] segs[i]),
    ensures
        is_place(walk(from, segs)),
    decreases segs.len(),
{
    if segs.len() > 0 {
        lemma_walk_ends_in_place(from, segs.drop_last());
        assert(no_slash(segs.last()));
    }
}

/// What a request path names, read from a root that is a place, is a place.
pub proof fn lemma_target_is_place(root: Seq<Seq<u8>>, request_path: Seq<u8>)
    requires
        is_place(root),
    ensures
        is_place(target(root, request_path)),
{
    let pieces = split(percent_decoded(request_path), '/' as u8);
    lemma_split_pieces(percent_decoded(request_path), '/' as u8);
    lemma_walk_ends_in_place(root, pieces);
}

fn hex_char(b: u8) -> (r: bool)
    ensures
        r == is_hex(b),
{
    (b >= '0' as u8 && b <= '9' as u8) || (b >= 'a' as u8 && b <= 'f' as u8) || (b >= 'A' as u8
        && b <= 'F' as u8)
}

fn hex_char_value(b: u8) -> (r: u8)
    requires
        is_hex(b),
    ensures
        r == hex_value(b),
        r < 16,
{
    if b >= '0' as u8 && b <= '9' as u8 {
        b - '0' as u8
    } else if b >= 'a' as u8 && b <= 'f' as u8 {
        b - 'a' as u8 + 10
    } else {
        b - 'A' as u8 + 10
    }
}

/// Percent-decodes `s`.
pub fn decode(s: &[u8]) -> (out: Vec<u8>)
    ensures
        out@ == percent_decoded(s@),
{
    let mut out: Vec<u8> = Vec::new();
    let mut i: usize = 0;
    assert(s@.skip(0) =~= s@);
    while i < s.len()
        invariant
            i <= s.len(),
            percent_decoded(s@) == out@ + percent_decoded(s@.skip(i as int)),
        decreases s.len() - i,
    {
        let ghost rest = s@.skip(i as int);
        let ghost before = out@;
        if s[i] == '%' as u8 && s.len() - i >= 3 && hex_char(s[i + 1]) && hex_char(s[i + 2]) {
            let b: u8 = hex_char_value(s[i + 1]) * 16 + hex_char_value(s[i + 2]);
            out.push(b);
            proof {
                assert(is_escape(rest, 0));
                assert(rest.skip(3) =~= s@.skip(i + 3));
                assert(out@ + percent_decoded(rest.skip(3)) =~= before + percent_decoded(rest));
            }
            i += 3;
        } else {
            out.push(s[i]);
            proof {
                assert(!is_escape(rest, 0));
                assert(rest.skip(1) =~= s@.skip(i + 1));
                assert(out@ + percent_decoded(rest.skip(1)) =~= before + percent_decoded(rest));
            }
            i += 1;
        }
    }
    assert(out@ + percent_decoded(s@.skip(i as int)) =~= out@);
    out
}

/// Splits `s` at each occurrence of `sep`.
pub fn split_on(s: &[u8], sep: u8) -> (out: Vec<Vec<u8>>)
    ensures
        names(out@) == split(s@, sep),
{
    let mut done: Vec<Vec<u8>> = Vec::new();
    let mut cur: Vec<u8> = Vec::new();
    let mut i: usize = 0;
    assert(names(done@).push(cur@) =~= split(s@.take(0), sep));
    while i < s.len()
        invariant
            i <= s.len(),
            split(s@.take(i as int), sep) == names(done@).push(cur@),
        decreases s.len() - i,
    {
        let ghost head = s@.take(i as int);
        let ghost next = s@.take(i + 1);
        let ghost done_before = names(done@);
        let ghost cur_before = cur@;
        assert(next.drop_last() =~= head);
        assert(next.last() == s@[i as int]);
        if s[i] == sep {
            done.push(cur);
            cur = Vec::new();
            assert(names(done@) =~= done_before.push(cur_before));
        } else {
            cur.push(s[i]);
            assert(done_before.push(cur_before).drop_last() =~= done_before);
        }
        i += 1;
    }
    assert(s@.take(i as int) =~= s@);
    done.push(cur);
    assert(names(done@) =~= split(s@, sep));
    done
}

fn copy_segments(segs: &Vec<Vec<u8>>) -> (out: Vec<Vec<u8>>)
    ensures
        names(out@) == names(segs@),
{
    let mut out: Vec<Vec<u8>> = Vec::new();
    let mut i: usize = 0;
    while i < segs.len()
        invariant
            i <= segs.len(),
            names(out@) == names(segs@).take(i as int),
        decreases segs.len() - i,
    {
        let ghost before = names(out@);
        out.push(slice_to_vec(segs[i].as_slice()));
        assert(names(out@) =~= before.push(segs@[i as int]@));
        i += 1;
        assert(names(out@) =~= names(segs@).take(i as int));
    }
    assert(names(segs@).take(i as int) =~= names(segs@));
    out
}

fn walk_from(start: Vec<Vec<u8>>, segs: &Vec<Vec<u8>>) -> (at: Vec<Vec<u8>>)
    ensures
        names(at@) == walk(names(start@), names(segs@)),
{
    let ghost from = names(start@);
    let ghost all = names(segs@);
    let mut at = start;
    let mut i: usize = 0;
    while i < segs.len()
        invariant
            i <= segs.len(),
            all == names(segs@),
            names(at@) == walk(from, all.take(i as int)),
        decreases segs.len() - i,
    {
        let ghost before = names(at@);
        let seg = &segs[i];
        assert(all.take(i + 1).drop_last() =~= all.take(i as int));
        assert(all.take(i + 1).last() == seg@);
        if seg.len() == 0 || (seg.len() == 1 && seg[0] == '.' as u8) {
        } else if seg.len() == 2 && seg[0] == '.' as u8 && seg[1] == '.' as u8 {
            if at.len() > 0 {
                at.pop();
                assert(names(at@) =~= before.drop_last());
            }
        } else {
            at.push(slice_to_vec(seg.as_slice()));
            assert(names(at@) =~= before.push(seg@));
        }
        i += 1;
    }
    assert(all.take(i as int) =~= all);
    at
}

fn within(root: &Vec<Vec<u8>>, path: &Vec<Vec<u8>>) -> (r: bool)
    ensures
        r == is_within(names(root@), names(path@)),
{
    if root.len() > path.len() {
        return false;
    }
    let mut i: usize = 0;
    while i < root.len()
        invariant
            i <= root.len(),
            root.len() <= path.len(),
            forall|j: int| 0 <= j < i ==> root@[j]@ == path@[j]@,
        decreases root.len() - i,
    {
        if !same_bytes(root[i].as_slice(), path[i].as_slice()) {
            assert(names(path@).take(root.len() as int)[i as int] != names(root@)[i as int]);
            return false;
        }
        i += 1;
    }
    assert(names(path@).take(root.len() as int) =~= names(root@));
    true
}

fn render(segs: &Vec<Vec<u8>>) -> (out: Vec<u8>)
    ensures
        out@ == path_text(names(segs@)),
{
    let mut out: Vec<u8> = Vec::new();
    if segs.len() == 0 {
        out.push('/' as u8);
        assert(out@ =~= seq!['/' as u8]);
        return out;
    }
    let ghost all = names(segs@);
    let mut i: usize = 0;
    while i < segs.len()
        invariant
            i <= segs.len(),
            all == names(segs@),
            out@ == joined(all.take(i as int)),
        decreases segs.len() - i,
    {
        let ghost before = out@;
        assert(all.take(i + 1).drop_last() =~= all.take(i as int));
        assert(all.take(i + 1).last() == segs@[i as int]@);
        out.push('/' as u8);
        push_bytes(&mut out, segs[i].as_slice());
        assert(out@ =~= before + seq!['/' as u8] + segs@[i as int]@);
        i += 1;
    }
    assert(all.take(i as int) =~= all);
    out
}

fn name_segment(seg: &Vec<u8>) -> (r: bool)
    ensures
        r == is_name(seg@),
{
    if seg.len() == 0 {
        false
    } else if seg.len() == 1 && seg[0] == '.' as u8 {
        false
    } else if seg.len() == 2 && seg[0] == '.' as u8 && seg[1] == '.' as u8 {
        false
    } else {
        true
    }
}

fn parse_canonical(text: &[u8]) -> (r: Option<Vec<Vec<u8>>>)
    ensures
        match r {
            Some(segs) => canonical_segments(text@) == Some(names(segs@)),
            None => canonical_segments(text@).is_none(),
        },
{
    if text.len() == 0 || text[0] != '/' as u8 {
        return None;
    }
    if text.len() == 1 {
        let segs: Vec<Vec<u8>> = Vec::new();
        assert(names(segs@) =~= Seq::<Seq<u8>>::empty());
        return Some(segs);
    }
    let tail = slice_subrange(text, 1, text.len());
    assert(tail@ =~= text@.skip(1));
    let segs = split_on(tail, '/' as u8);
    let mut i: usize = 0;
    while i < segs.len()
        invariant
            i <= segs.len(),
            text@.len() > 1,
            text@[0] == '/' as u8,
            names(segs@) == split(text@.skip(1), '/' as u8),
            forall|j: int| 0 <= j < i ==> is_name(#[trigger] names(segs@)[j]),
        decreases segs.len() - i,
    {
        if !name_segment(&segs[i]) {
            assert(!is_name(names(segs@)[i as int]));
            return None;
        }
        i += 1;
    }
    Some(segs)
}

/// The directory that is served: a canonical absolute path, held as its
/// segments.
#[derive(Debug, Clone, PartialEq, Eq)]
pub struct RootDir {
    segments: Vec<Vec<u8>>,
}

impl View for RootDir {
    type V = Seq<Seq<u8>>;

    closed spec fn view(&self) -> Seq<Seq<u8>> {
        names(self.segments@)
    }
}

impl RootDir {
    /// Reads a canonical absolute path; `None` for any other text.
    pub fn new(canonical_path: &[u8]) -> (r: Option<RootDir>)
        ensures
            match r {
                Some(root) => canonical_segments(canonical_path@) == Some(root@) && is_place(
                    root@,
                ),
                None => canonical_segments(canonical_path@).is_none(),
            },
    {
        proof {
            if canonical_segments(canonical_path@) is Some {
                lemma_canonical_is_place(canonical_path@);
            }
        }
        match parse_canonical(canonical_path) {
            Some(segments) => Some(RootDir { segments }),
            None => None,
        }
    }

    /// The root as path text.
    pub fn path(&self) -> (r: Vec<u8>)
        ensures
            r@ == path_text(self@),
    {
        render(&self.segments)
    }
}

/// Why a request path names nothing that may be served.
#[derive(Debug, Clone, Copy, PartialEq, Eq, Structural)]
pub enum ResolveError {
    /// The path leads out of the root.
    Forbidden,
    /// Nothing exists at the path.
    NotFound,
}

/// What the filesystem holds at a path that it was asked about.
#[derive(Debug, Clone, PartialEq, Eq)]
pub struct Entry {
    /// The canonical absolute path, symbolic links followed.
    pub canonical_path: Vec<u8>,
    pub is_directory: bool,
    /// The size in bytes.
    pub size: u64,
    /// The time of the last change: whole seconds since the Unix epoch.
    pub modified_secs: u64,
    /// The nanoseconds that go with `modified_secs`.
    pub modified_nanos: u32,
}

/// The answer of the filesystem to a lookup.
#[derive(Debug, Clone, PartialEq, Eq)]
pub enum Probe {
    Missing,
    Found(Entry),
}

/// A place under the root that exists.
#[derive(Debug, Clone, PartialEq, Eq)]
pub struct ResolvedPath {
    segments: Vec<Vec<u8>>,
    is_directory: bool,
}

impl ResolvedPath {
    /// The segments of the canonical absolute path.
    pub closed spec fn segments(&self) -> Seq<Seq<u8>> {
        names(self.segments@)
    }

    /// Whether the place is a directory.
    pub closed spec fn is_dir(&self) -> bool {
        self.is_directory
    }

    /// The last segment, or nothing for the top directory.
    pub open spec fn name(&self) -> Seq<u8> {
        if self.segments().len() == 0 {
            Seq::empty()
        } else {
            self.segments().last()
        }
    }

    /// Whether the place is a directory.
    pub fn is_directory(&self) -> (r: bool)
        ensures
            r == self.is_dir(),
    {
        self.is_directory
    }

    /// The canonical absolute path as text.
    pub fn absolute_path(&self) -> (r: Vec<u8>)
        ensures
            r@ == path_text(self.segments()),
    {
        render(&self.segments)
    }

    /// The name of the file or directory itself.
    pub fn file_name(&self) -> (r: Vec<u8>)
        ensures
            r@ == self.name(),
    {
        if self.segments.len() == 0 {
            Vec::new()
        } else {
            slice_to_vec(self.segments[self.segments.len() - 1].as_slice())
        }
    }

    /// The path of the index document of this directory.
    pub fn index_path(&self) -> (r: Vec<u8>)
        ensures
            r@ == path_text(self.segments().push(ascii("index.html"@))),
    {
        let mut segs = copy_segments(&self.segments);
        let mut index: Vec<u8> = Vec::new();
        proof {
            reveal_strlit("index.html");
        }
        push_text(&mut index, "index.html");
        assert(index@ =~= ascii("index.html"@));
        segs.push(index);
        assert(names(segs@) =~= self.segments().push(ascii("index.html"@)));
        render(&segs)
    }
}

/// The lexical half of resolution. The request path is percent-decoded, split
/// at slashes and walked from the root. A walk that ends outside the root is
/// `Forbidden`; any other yields the path to look up.
pub fn locate(root: &RootDir, request_path: &[u8]) -> (r: Result<Vec<u8>, ResolveError>)
    ensures
        match r {
            Ok(path) => is_within(root@, target(root@, request_path@)) && path@ == path_text(
                target(root@, request_path@),
            ),
            Err(e) => !is_within(root@, target(root@, request_path@)) && e
                == ResolveError::Forbidden,
        },
{
    let decoded = decode(request_path);
    let segs = split_on(decoded.as_slice(), '/' as u8);
    let at = walk_from(copy_segments(&root.segments), &segs);
    if within(&root.segments, &at) {
        Ok(render(&at))
    } else {
        Err(ResolveError::Forbidden)
    }
}

/// What [`confirm`] makes of a lookup: `NotFound` where nothing exists,
/// `Forbidden` where the canonical path is not under the root, and otherwise
/// the canonical segments with the kind of the entry.
pub open spec fn confirmed(root: Seq<Seq<u8>>, probe: Probe) -> Result<
    (Seq<Seq<u8>>, bool),
    ResolveError,
> {
    match probe {
        Probe::Missing => Err(ResolveError::NotFound),
        Probe::Found(entry) => match canonical_segments(entry.canonical_path@) {
            Some(segs) => if is_within(root, segs) {
                Ok((segs, entry.is_directory))
            } else {
                Err(ResolveError::Forbidden)
            },
            None => Err(ResolveError::Forbidden),
        },
    }
}

/// The filesystem half of resolution: judges what a lookup found.
pub fn confirm(root: &RootDir, probe: &Probe) -> (r: Result<ResolvedPath, ResolveError>)
    ensures
        match r {
            Ok(p) => confirmed(root@, *probe) == Ok::<(Seq<Seq<u8>>, bool), ResolveError>(
                (p.segments(), p.is_dir()),
            ),
            Err(e) => confirmed(root@, *probe) == Err::<(Seq<Seq<u8>>, bool), ResolveError>(e),
        },
        r is Ok ==> is_within(root@, r->Ok_0.segments()),
{
    match probe {
        Probe::Missing => Err(ResolveError::NotFound),
        Probe::Found(entry) => match parse_canonical(entry.canonical_path.as_slice()) {
            Some(segments) => {
                if within(&root.segments, &segments) {
                    Ok(ResolvedPath { segments, is_directory: entry.is_directory })
                } else {
                    Err(ResolveError::Forbidden)
                }
            },
            None => Err(ResolveError::Forbidden),
        },
    }
}

/// The whole resolver, for a caller that already holds the answer to the
/// lookup that [`locate`] asks for.
pub fn resolve(root: &RootDir, request_path: &[u8], probe: &Probe) -> (r: Result<
    ResolvedPath,
    ResolveError,
>)
    ensures
        !is_within(root@, target(root@, request_path@)) ==> r == Err::<
            ResolvedPath,
            ResolveError,
        >(ResolveError::Forbidden),
        is_within(root@, target(root@, request_path@)) ==> match r {
            Ok(p) => confirmed(root@, *probe) == Ok::<(Seq<Seq<u8>>, bool), ResolveError>(
                (p.segments(), p.is_dir()),
            ),
            Err(e) => confirmed(root@, *probe) == Err::<(Seq<Seq<u8>>, bool), ResolveError>(e),
        },
        r is Ok ==> is_within(root@, r->Ok_0.segments()),
{
    match locate(root, request_path) {
        Err(e) => Err(e),
        Ok(_) => confirm(root, probe),
    }
}

} // verus!
