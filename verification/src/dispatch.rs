//! The dispatcher: from a request to its response, by way of the filesystem.
//!
//! The dispatcher never touches the filesystem. It names a path, is told what
//! the filesystem holds there, and either names one more path (the index
//! document of a directory) or gives the response. [`begin`] and [`advance`]
//! are the two moves; [`handle`] plays them against a lookup function.

use vstd::prelude::*;
use crate::path::{
    confirm, confirmed, is_place, is_within, lemma_path_text_is_read_back,
    lemma_target_is_place, locate, path_text, target, Entry, Probe, ResolveError, RootDir,
};
use crate::respond::{
    header_views, lemma_known_etag_gets_304, plain, plain_response, respond, response_for, Body,
    BodyView, Header, Request, RequestView, Response, ResponseView,
};
use crate::text::{ascii, is_text, text_bytes};
use crate::validator::{etag_of, FileMetadata, Stat};

verus! {

/// Which lookup is under way: that of the request's own target, or that of
/// the index document of the directory that the target turned out to be.
#[derive(Debug, Clone, Copy, PartialEq, Eq, Structural)]
pub enum Stage {
    Target,
    Index,
}

/// What the dispatcher wants next.
#[derive(Debug, Clone, PartialEq, Eq)]
pub enum Step {
    /// Ask the filesystem about this path, and come back with the answer.
    Lookup(Vec<u8>),
    /// Send this response.
    Reply(Response),
}

/// A move as contracts see it.
pub enum StepView {
    Lookup(Seq<u8>),
    Reply(ResponseView),
}

impl View for Step {
    type V = StepView;

    open spec fn view(&self) -> StepView {
        match self {
            Step::Lookup(path) => StepView::Lookup(path@),
            Step::Reply(response) => StepView::Reply(response@),
        }
    }
}

/// The status that tells a client why its path was not served.
pub open spec fn status_of(e: ResolveError) -> u16 {
    match e {
        ResolveError::Forbidden => 403,
        ResolveError::NotFound => 404,
    }
}

/// The attributes among what a lookup found.
pub open spec fn stat_of(entry: Entry) -> Stat {
    Stat {
        size: entry.size,
        modified_secs: entry.modified_secs,
        modified_nanos: entry.modified_nanos,
    }
}

/// The answer to a request whose method is not `GET`.
pub open spec fn method_not_allowed() -> ResponseView {
    ResponseView {
        status: 405,
        headers: seq![(ascii("Allow"@), ascii("GET"@))],
        body: BodyView::Empty,
    }
}

/// The first move. A method other than `GET` is refused with 405, a path
/// that leads out of the root with 403; any other request has its target
/// looked up.
#[verifier::opaque]
pub open spec fn first_step(root: Seq<Seq<u8>>, request: RequestView) -> StepView {
    if request.method != ascii("GET"@) {
        StepView::Reply(method_not_allowed())
    } else if !is_within(root, target(root, request.path)) {
        StepView::Reply(plain(403))
    } else {
        StepView::Lookup(path_text(target(root, request.path)))
    }
}

/// The move after a lookup. What does not exist gets 404, what lies outside
/// the root 403. A file gets its response. A directory has its index
/// document looked up, once; a directory in the place of that document
/// gets 404.
#[verifier::opaque]
pub open spec fn next_step(
    root: Seq<Seq<u8>>,
    request: RequestView,
    stage: Stage,
    probe: Probe,
) -> StepView {
    match confirmed(root, probe) {
        Err(e) => StepView::Reply(plain(status_of(e))),
        Ok((segments, is_directory)) => if !is_directory {
            StepView::Reply(response_for(segments, stat_of(probe->Found_0), request))
        } else if stage == Stage::Target {
            StepView::Lookup(path_text(segments.push(ascii("index.html"@))))
        } else {
            StepView::Reply(plain(404))
        },
    }
}

/// Whether `lookup` may answer `probe` when asked about `path`.
pub open spec fn answers<F: Fn(&[u8]) -> Probe>(lookup: F, path: Seq<u8>, probe: Probe) -> bool {
    exists|asked: &[u8]| asked@ == path && #[trigger] lookup.ensures((asked,), probe)
}

/// Whether `response` is what the dispatcher gives after the index document
/// at `index` was looked up with `lookup`.
pub open spec fn handled_index<F: Fn(&[u8]) -> Probe>(
    root: Seq<Seq<u8>>,
    request: RequestView,
    lookup: F,
    index: Seq<u8>,
    response: ResponseView,
) -> bool {
    exists|inner: Probe|
        #[trigger] answers(lookup, index, inner) && next_step(root, request, Stage::Index, inner)
            == StepView::Reply(response)
}

/// Whether `response` is what the dispatcher gives after the target at
/// `path` was looked up with `lookup`, and its index document if it has to be.
pub open spec fn handled_target<F: Fn(&[u8]) -> Probe>(
    root: Seq<Seq<u8>>,
    request: RequestView,
    lookup: F,
    path: Seq<u8>,
    response: ResponseView,
) -> bool {
    exists|probe: Probe|
        #[trigger] answers(lookup, path, probe) && match next_step(
            root,
            request,
            Stage::Target,
            probe,
        ) {
            StepView::Reply(second) => response == second,
            StepView::Lookup(index) => handled_index(root, request, lookup, index, response),
        }
}

/// Whether `response` is what the moves of the dispatcher give when each
/// lookup is answered by `lookup`.
pub open spec fn handled<F: Fn(&[u8]) -> Probe>(
    root: Seq<Seq<u8>>,
    request: RequestView,
    lookup: F,
    response: ResponseView,
) -> bool {
    match first_step(root, request) {
        StepView::Reply(first) => response == first,
        StepView::Lookup(path) => handled_target(root, request, lookup, path, response),
    }
}

fn error_response(e: ResolveError) -> (r: Response)
    ensures
        r@ == plain(status_of(e)),
{
    match e {
        ResolveError::Forbidden => plain_response(403),
        ResolveError::NotFound => plain_response(404),
    }
}

/// The first move for a request.
pub fn begin(root: &RootDir, request: &Request) -> (r: Step)
    ensures
        r@ == first_step(root@, request@),
{
    proof {
        reveal(first_step);
        reveal_strlit("GET");
        reveal_strlit("Allow");
    }
    if !is_text(request.method.as_slice(), "GET") {
        let mut headers: Vec<Header> = Vec::new();
        headers.push(Header { name: text_bytes("Allow"), value: text_bytes("GET") });
        assert(header_views(headers@) =~= seq![(ascii("Allow"@), ascii("GET"@))]);
        return Step::Reply(Response { status: 405, headers, body: Body::Empty });
    }
    match locate(root, request.path.as_slice()) {
        Ok(path) => Step::Lookup(path),
        Err(e) => Step::Reply(error_response(e)),
    }
}

/// The move after the lookup of `stage` was answered with `probe`. After the
/// lookup of an index document the move is always a response.
pub fn advance(root: &RootDir, request: &Request, stage: Stage, probe: &Probe) -> (r: Step)
    ensures
        r@ == next_step(root@, request@, stage, *probe),
        stage == Stage::Index ==> r is Reply,
{
    proof {
        reveal(next_step);
    }
    match probe {
        Probe::Missing => Step::Reply(plain_response(404)),
        Probe::Found(entry) => match confirm(root, probe) {
            Err(e) => Step::Reply(error_response(e)),
            Ok(resolved) => {
                if !resolved.is_directory() {
                    let meta = FileMetadata::new(
                        entry.size,
                        entry.modified_secs,
                        entry.modified_nanos,
                    );
                    Step::Reply(respond(&resolved, &meta, request))
                } else {
                    match stage {
                        Stage::Target => Step::Lookup(resolved.index_path()),
                        Stage::Index => Step::Reply(plain_response(404)),
                    }
                }
            },
        },
    }
}

/// Answers a request, asking `lookup` what the filesystem holds.
pub fn handle<F: Fn(&[u8]) -> Probe>(root: &RootDir, request: &Request, lookup: F) -> (r: Response)
    requires
        forall|path: &[u8]| lookup.requires((path,)),
    ensures
        handled(root@, request@, lookup, r@),
{
    let first = begin(root, request);
    match first {
        Step::Reply(response) => response,
        Step::Lookup(path) => {
            let asked = path.as_slice();
            let probe = lookup(asked);
            assert(answers(lookup, path@, probe));
            let second = advance(root, request, Stage::Target, &probe);
            match second {
                Step::Reply(response) => {
                    assert(handled_target(root@, request@, lookup, path@, response@));
                    response
                },
                Step::Lookup(index) => {
                    let asked_index = index.as_slice();
                    let inner = lookup(asked_index);
                    assert(answers(lookup, index@, inner));
                    let third = advance(root, request, Stage::Index, &inner);
                    match third {
                        Step::Reply(response) => {
                            assert(handled_index(root@, request@, lookup, index@, response@));
                            assert(handled_target(root@, request@, lookup, path@, response@));
                            response
                        },
                        // After the lookup of an index document the move is a response.
                        Step::Lookup(_) => plain_response(404),
                    }
                },
            }
        },
    }
}

/// A path that the dispatcher asks about lies under the root: no request
/// makes it look anywhere else.
pub proof fn lemma_lookups_stay_inside(
    root: Seq<Seq<u8>>,
    request: RequestView,
    stage: Stage,
    probe: Probe,
)
    ensures
        first_step(root, request) is Lookup ==> exists|place: Seq<Seq<u8>>|
            #[trigger] is_within(root, place) && first_step(root, request) == StepView::Lookup(
                path_text(place),
            ),
        next_step(root, request, stage, probe) is Lookup ==> exists|place: Seq<Seq<u8>>|
            #[trigger] is_within(root, place) && next_step(root, request, stage, probe)
                == StepView::Lookup(path_text(place)),
{
    reveal(first_step);
    reveal(next_step);
    if first_step(root, request) is Lookup {
        assert(is_within(root, target(root, request.path)));
    }
    if next_step(root, request, stage, probe) is Lookup {
        let segments = confirmed(root, probe)->Ok_0.0;
        let place = segments.push(ascii("index.html"@));
        assert(place.take(root.len() as int) =~= segments.take(root.len() as int));
        assert(is_within(root, place));
    }
}

/// A request whose path leads out of the root is refused with 403 before
/// anything is looked up.
pub proof fn lemma_escape_is_forbidden(root: Seq<Seq<u8>>, request: RequestView)
    requires
        request.method == ascii("GET"@),
        !is_within(root, target(root, request.path)),
    ensures
        first_step(root, request) == StepView::Reply(plain(403)),
{
    reveal(first_step);
}

/// Whatever the lookup function would say, a request whose path leads out
/// of the root gets 403 and nothing else.
pub proof fn lemma_escape_gets_403<F: Fn(&[u8]) -> Probe>(
    root: Seq<Seq<u8>>,
    request: RequestView,
    lookup: F,
    response: ResponseView,
)
    requires
        request.method == ascii("GET"@),
        !is_within(root, target(root, request.path)),
        handled(root, request, lookup, response),
    ensures
        response == plain(403),
{
    reveal(first_step);
}

/// What the filesystem places outside the root, by a symbolic link or
/// otherwise, is refused with 403.
pub proof fn lemma_outside_is_forbidden(
    root: Seq<Seq<u8>>,
    request: RequestView,
    stage: Stage,
    entry: Entry,
)
    requires
        match crate::path::canonical_segments(entry.canonical_path@) {
            Some(place) => !is_within(root, place),
            None => true,
        },
    ensures
        next_step(root, request, stage, Probe::Found(entry)) == StepView::Reply(plain(403)),
{
    reveal(next_step);
}

/// A file that the filesystem holds where it was looked for is answered
/// for: a lookup that comes back with a file at the very path that was
/// asked about leads to that file's response.
pub proof fn lemma_found_where_asked_is_served(
    root: Seq<Seq<u8>>,
    request: RequestView,
    entry: Entry,
)
    requires
        is_place(root),
        first_step(root, request) == StepView::Lookup(entry.canonical_path@),
        !entry.is_directory,
    ensures
        next_step(root, request, Stage::Target, Probe::Found(entry)) == StepView::Reply(
            response_for(target(root, request.path), stat_of(entry), request),
        ),
{
    reveal(first_step);
    reveal(next_step);
    lemma_target_is_place(root, request.path);
    lemma_path_text_is_read_back(target(root, request.path));
}

/// A request for a file that hands the file's own entity tag back in
/// `If-None-Match` is answered with 304 and no body.
pub proof fn lemma_current_tag_is_not_modified(
    root: Seq<Seq<u8>>,
    request: RequestView,
    stage: Stage,
    entry: Entry,
)
    requires
        confirmed(root, Probe::Found(entry)) is Ok,
        !entry.is_directory,
        request.if_none_match == Some(etag_of(stat_of(entry))),
    ensures
        next_step(root, request, stage, Probe::Found(entry)) is Reply,
        next_step(root, request, stage, Probe::Found(entry))->Reply_0.status == 304,
        next_step(root, request, stage, Probe::Found(entry))->Reply_0.body == BodyView::Empty,
{
    reveal(next_step);
    let segments = confirmed(root, Probe::Found(entry))->Ok_0.0;
    lemma_known_etag_gets_304(segments, stat_of(entry), request);
}

/// What does not exist is answered with 404.
pub proof fn lemma_missing_is_not_found(root: Seq<Seq<u8>>, request: RequestView, stage: Stage)
    ensures
        next_step(root, request, stage, Probe::Missing) == StepView::Reply(plain(404)),
{
    reveal(next_step);
}

} // verus!
