//! The content responder: what to answer for a file that was found.

use vstd::prelude::*;
use crate::date::{format_http_date, http_date, END_OF_DATES};
use crate::media::{content_type, extension, media_type, same_nocase};
use crate::path::{path_text, ResolvedPath};
use crate::range::{byte_range, parse_range};
use crate::text::{ascii, decimal, push_decimal, push_text, same_bytes_nocase, text_bytes};
use crate::validator::{etag_of, lemma_own_etag_is_current, not_modified, opt_bytes, FileMetadata, Stat};
use vstd::slice::slice_to_vec;

verus! {

/// What the server reads of a request.
#[derive(Debug, Clone, PartialEq, Eq)]
pub struct Request {
    pub method: Vec<u8>,
    /// The path of the request target, still percent-encoded, without the query.
    pub path: Vec<u8>,
    pub if_none_match: Option<Vec<u8>>,
    pub if_modified_since: Option<Vec<u8>>,
    pub range: Option<Vec<u8>>,
}

/// A request as contracts see it.
pub struct RequestView {
    pub method: Seq<u8>,
    pub path: Seq<u8>,
    pub if_none_match: Option<Seq<u8>>,
    pub if_modified_since: Option<Seq<u8>>,
    pub range: Option<Seq<u8>>,
}

impl View for Request {
    type V = RequestView;

    open spec fn view(&self) -> RequestView {
        RequestView {
            method: self.method@,
            path: self.path@,
            if_none_match: opt_bytes(self.if_none_match),
            if_modified_since: opt_bytes(self.if_modified_since),
            range: opt_bytes(self.range),
        }
    }
}

/// One header line of a response.
#[derive(Debug, Clone, PartialEq, Eq)]
pub struct Header {
    pub name: Vec<u8>,
    pub value: Vec<u8>,
}

impl View for Header {
    type V = (Seq<u8>, Seq<u8>);

    open spec fn view(&self) -> (Seq<u8>, Seq<u8>) {
        (self.name@, self.value@)
    }
}

/// The body of a response: nothing, or a run of bytes of a file, which the
/// caller streams.
#[derive(Debug, Clone, PartialEq, Eq)]
pub enum Body {
    Empty,
    File { path: Vec<u8>, offset: u64, length: u64 },
}

/// A body as contracts see it.
pub enum BodyView {
    Empty,
    File { path: Seq<u8>, offset: nat, length: nat },
}

impl View for Body {
    type V = BodyView;

    open spec fn view(&self) -> BodyView {
        match self {
            Body::Empty => BodyView::Empty,
            Body::File { path, offset, length } => BodyView::File {
                path: path@,
                offset: *offset as nat,
                length: *length as nat,
            },
        }
    }
}

/// A response, ready to be sent.
#[derive(Debug, Clone, PartialEq, Eq)]
pub struct Response {
    pub status: u16,
    pub headers: Vec<Header>,
    pub body: Body,
}

/// A response as contracts see it.
pub struct ResponseView {
    pub status: u16,
    pub headers: Seq<(Seq<u8>, Seq<u8>)>,
    pub body: BodyView,
}

/// The header lines that a vector of headers holds.
pub open spec fn header_views(v: Seq<Header>) -> Seq<(Seq<u8>, Seq<u8>)> {
    Seq::new(v.len(), |i: int| v[i]@)
}

impl View for Response {
    type V = ResponseView;

    open spec fn view(&self) -> ResponseView {
        ResponseView {
            status: self.status,
            headers: header_views(self.headers@),
            body: self.body@,
        }
    }
}

/// The value of the first header line named `name`, in either case of its
/// letters.
pub open spec fn header_value(headers: Seq<(Seq<u8>, Seq<u8>)>, name: Seq<u8>) -> Option<Seq<u8>>
    decreases headers.len(),
{
    if headers.len() == 0 {
        None
    } else if same_nocase(headers[0].0, name) {
        Some(headers[0].1)
    } else {
        header_value(headers.skip(1), name)
    }
}

impl Response {
    /// The value of the first header named `name`, in either case of its
    /// letters.
    pub fn header(&self, name: &[u8]) -> (r: Option<Vec<u8>>)
        ensures
            opt_bytes(r) == header_value(self@.headers, name@),
    {
        let ghost all = header_views(self.headers@);
        let mut i: usize = 0;
        assert(all.skip(0) =~= all);
        while i < self.headers.len()
            invariant
                i <= self.headers.len(),
                all == header_views(self.headers@),
                header_value(all, name@) == header_value(all.skip(i as int), name@),
            decreases self.headers.len() - i,
        {
            assert(all.skip(i as int)[0] == self.headers@[i as int]@);
            assert(all.skip(i as int).skip(1) =~= all.skip(i + 1));
            if same_bytes_nocase(self.headers[i].name.as_slice(), name) {
                return Some(slice_to_vec(self.headers[i].value.as_slice()));
            }
            i += 1;
        }
        None
    }
}

/// A response without headers and without a body.
pub open spec fn plain(status: u16) -> ResponseView {
    ResponseView { status, headers: Seq::empty(), body: BodyView::Empty }
}

/// The headers that let a client check its copy later: the entity tag, and
/// the date of the last change where the date format can show it.
pub open spec fn validators(stat: Stat) -> Seq<(Seq<u8>, Seq<u8>)> {
    if stat.modified_secs < END_OF_DATES {
        seq![
            (ascii("ETag"@), etag_of(stat)),
            (ascii("Last-Modified"@), http_date(stat.modified_secs as int)),
        ]
    } else {
        seq![(ascii("ETag"@), etag_of(stat))]
    }
}

/// The headers that describe a file, whatever part of it is sent.
pub open spec fn entity_headers(name: Seq<u8>, stat: Stat) -> Seq<(Seq<u8>, Seq<u8>)> {
    seq![
        (ascii("Content-Type"@), media_type(extension(name))),
        (ascii("Accept-Ranges"@), ascii("bytes"@)),
    ] + validators(stat)
}

/// The `Content-Range` of a partial response.
pub open spec fn content_range(start: nat, end: nat, size: nat) -> Seq<u8> {
    ascii("bytes "@) + decimal(start) + seq!['-' as u8] + decimal(end) + seq!['/' as u8] + decimal(
        size,
    )
}

/// The `Content-Range` that goes with a range that cannot be satisfied.
pub open spec fn unsatisfied_range(size: nat) -> Seq<u8> {
    ascii("bytes */"@) + decimal(size)
}

/// The last segment of a path, or nothing for the top directory.
pub open spec fn last_name(path: Seq<Seq<u8>>) -> Seq<u8> {
    if path.len() == 0 {
        Seq::empty()
    } else {
        path.last()
    }
}

/// The response for a file at `path` with attributes `stat`.
///
/// A client whose copy is current gets 304 and no body. Otherwise a request
/// without a `Range` header gets 200 and the whole file; one with a range
/// that the file can satisfy gets 206 and those bytes; one with any other
/// `Range` value gets 416.
pub open spec fn response_for(path: Seq<Seq<u8>>, stat: Stat, request: RequestView) -> ResponseView {
    let size = stat.size as nat;
    let described = entity_headers(last_name(path), stat);
    if not_modified(stat, request.if_none_match, request.if_modified_since) {
        ResponseView { status: 304, headers: validators(stat), body: BodyView::Empty }
    } else {
        match request.range {
            None => ResponseView {
                status: 200,
                headers: described.push((ascii("Content-Length"@), decimal(size))),
                body: BodyView::File { path: path_text(path), offset: 0, length: size },
            },
            Some(value) => match byte_range(value, size) {
                Some((start, end)) => ResponseView {
                    status: 206,
                    headers: described.push(
                        (ascii("Content-Range"@), content_range(start, end, size)),
                    ).push((ascii("Content-Length"@), decimal((end - start + 1) as nat))),
                    body: BodyView::File {
                        path: path_text(path),
                        offset: start,
                        length: (end - start + 1) as nat,
                    },
                },
                None => ResponseView {
                    status: 416,
                    headers: described.push((ascii("Content-Range"@), unsatisfied_range(size))),
                    body: BodyView::Empty,
                },
            },
        }
    }
}

fn push_header(headers: &mut Vec<Header>, name: &str, value: Vec<u8>)
    requires
        name.is_ascii(),
    ensures
        header_views(final(headers)@) == header_views(old(headers)@).push((ascii(name@), value@)),
{
    let header = Header { name: text_bytes(name), value };
    headers.push(header);
    assert(header_views(headers@) =~= header_views(old(headers)@).push((ascii(name@), value@)));
}

fn push_validators(headers: &mut Vec<Header>, meta: &FileMetadata)
    ensures
        header_views(final(headers)@) == header_views(old(headers)@) + validators(meta@),
{
    proof {
        reveal_strlit("ETag");
        reveal_strlit("Last-Modified");
    }
    push_header(headers, "ETag", slice_to_vec(meta.etag()));
    match format_http_date(meta.modified_secs()) {
        Some(date) => {
            push_header(headers, "Last-Modified", date);
        },
        None => {},
    }
    assert(header_views(headers@) =~= header_views(old(headers)@) + validators(meta@));
}

fn range_text(start: u64, end: u64, size: u64) -> (r: Vec<u8>)
    ensures
        r@ == content_range(start as nat, end as nat, size as nat),
{
    proof {
        reveal_strlit("bytes ");
    }
    let mut out: Vec<u8> = Vec::new();
    push_text(&mut out, "bytes ");
    push_decimal(&mut out, start);
    out.push('-' as u8);
    push_decimal(&mut out, end);
    out.push('/' as u8);
    push_decimal(&mut out, size);
    assert(out@ =~= content_range(start as nat, end as nat, size as nat));
    out
}

fn unsatisfied_text(size: u64) -> (r: Vec<u8>)
    ensures
        r@ == unsatisfied_range(size as nat),
{
    proof {
        reveal_strlit("bytes */");
    }
    let mut out: Vec<u8> = Vec::new();
    push_text(&mut out, "bytes */");
    push_decimal(&mut out, size);
    assert(out@ =~= unsatisfied_range(size as nat));
    out
}

fn number_text(n: u64) -> (r: Vec<u8>)
    ensures
        r@ == decimal(n as nat),
{
    let mut out: Vec<u8> = Vec::new();
    push_decimal(&mut out, n);
    assert(out@ =~= decimal(n as nat));
    out
}

/// A response without headers and without a body.
pub fn plain_response(status: u16) -> (r: Response)
    ensures
        r@ == plain(status),
{
    let r = Response { status, headers: Vec::new(), body: Body::Empty };
    assert(r@.headers =~= Seq::empty());
    r
}

/// The response for a file that was found, with `meta` as its attributes.
pub fn respond(resolved: &ResolvedPath, meta: &FileMetadata, request: &Request) -> (r: Response)
    ensures
        r@ == response_for(resolved.segments(), meta@, request@),
{
    proof {
        reveal_strlit("Content-Type");
        reveal_strlit("Accept-Ranges");
        reveal_strlit("bytes");
        reveal_strlit("Content-Length");
        reveal_strlit("Content-Range");
    }
    let mut headers: Vec<Header> = Vec::new();
    assert(header_views(headers@) =~= Seq::empty());
    if meta.is_current_for(&request.if_none_match, &request.if_modified_since) {
        push_validators(&mut headers, meta);
        assert(header_views(headers@) =~= validators(meta@));
        return Response { status: 304, headers, body: Body::Empty };
    }
    let name = resolved.file_name();
    let size: u64 = meta.size();
    push_header(&mut headers, "Content-Type", content_type(name.as_slice()));
    push_header(&mut headers, "Accept-Ranges", text_bytes("bytes"));
    push_validators(&mut headers, meta);
    assert(header_views(headers@) =~= entity_headers(last_name(resolved.segments()), meta@));
    match &request.range {
        None => {
            push_header(&mut headers, "Content-Length", number_text(size));
            Response {
                status: 200,
                headers,
                body: Body::File { path: resolved.absolute_path(), offset: 0, length: size },
            }
        },
        Some(value) => match parse_range(value.as_slice(), size) {
            Some(range) => {
                let length: u64 = range.end - range.start + 1;
                push_header(
                    &mut headers,
                    "Content-Range",
                    range_text(range.start, range.end, size),
                );
                push_header(&mut headers, "Content-Length", number_text(length));
                Response {
                    status: 206,
                    headers,
                    body: Body::File {
                        path: resolved.absolute_path(),
                        offset: range.start,
                        length,
                    },
                }
            },
            None => {
                push_header(&mut headers, "Content-Range", unsatisfied_text(size));
                Response { status: 416, headers, body: Body::Empty }
            },
        },
    }
}

/// A request that hands the file's own entity tag back in `If-None-Match`
/// gets 304 and no body, whatever else it asks for.
pub proof fn lemma_known_etag_gets_304(path: Seq<Seq<u8>>, stat: Stat, request: RequestView)
    requires
        request.if_none_match == Some(etag_of(stat)),
    ensures
        response_for(path, stat, request).status == 304,
        response_for(path, stat, request).body == BodyView::Empty,
{
    lemma_own_etag_is_current(stat, request.if_modified_since);
}

/// Where a request names no conditions and no range, the file goes out
/// whole, with status 200.
pub proof fn lemma_plain_get_sends_all(path: Seq<Seq<u8>>, stat: Stat, request: RequestView)
    requires
        request.if_none_match.is_none(),
        request.if_modified_since.is_none(),
        request.range.is_none(),
    ensures
        response_for(path, stat, request).status == 200,
        response_for(path, stat, request).body == (BodyView::File {
            path: path_text(path),
            offset: 0,
            length: stat.size as nat,
        }),
{
}

/// Of a file of at least five bytes, the range `bytes=0-4` gets the first
/// five with status 206, and a `Content-Range` that names them and the size.
pub proof fn lemma_first_five_bytes(path: Seq<Seq<u8>>, stat: Stat, request: RequestView)
    requires
        request.range == Some(ascii("bytes=0-4"@)),
        !not_modified(stat, request.if_none_match, request.if_modified_since),
        stat.size >= 5,
    ensures
        response_for(path, stat, request).status == 206,
        response_for(path, stat, request).headers.contains(
            (ascii("Content-Range"@), ascii("bytes 0-4/"@) + decimal(stat.size as nat)),
        ),
        response_for(path, stat, request).body == (BodyView::File {
            path: path_text(path),
            offset: 0,
            length: 5,
        }),
{
    reveal_strlit("bytes=0-4");
    reveal_strlit("bytes=");
    reveal_strlit("bytes 0-4/");
    reveal_strlit("bytes ");
    let size = stat.size as nat;
    assert(decimal(0) =~= seq!['0' as u8]);
    assert(decimal(4) =~= seq!['4' as u8]);
    assert(ascii("bytes=0-4"@) =~= ascii("bytes="@) + decimal(0) + seq!['-' as u8] + decimal(4));
    crate::range::lemma_range_is_read_back(0, 4, size);
    assert(content_range(0, 4, size) =~= ascii("bytes 0-4/"@) + decimal(size));
    let response = response_for(path, stat, request);
    let line = (ascii("Content-Range"@), ascii("bytes 0-4/"@) + decimal(size));
    assert(response.headers[response.headers.len() - 2] == line);
}

/// The bytes of a partial response lie inside the file.
pub proof fn lemma_partial_body_in_file(path: Seq<Seq<u8>>, stat: Stat, request: RequestView)
    ensures
        match response_for(path, stat, request).body {
            BodyView::Empty => true,
            BodyView::File { path: _, offset, length } => offset + length <= stat.size,
        },
{
    if request.range is Some {
        let s = request.range->Some_0;
        if byte_range(s, stat.size as nat) is Some {
            crate::range::lemma_range_in_file(s, stat.size as nat);
        }
    }
}

} // verus!
