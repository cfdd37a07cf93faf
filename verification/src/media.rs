//! Content types, chosen by the extension of a file name.

use vstd::prelude::*;
use vstd::slice::slice_subrange;
use crate::text::{ascii, is_text_nocase, lower_seq, text_bytes};

verus! {

/// Whether the last dot of `name` is at `k`. A dot that starts the name marks
/// a hidden file, not an extension.
pub open spec fn is_last_dot(name: Seq<u8>, k: int) -> bool {
    &&& 0 < k < name.len()
    &&& name[k] == '.' as u8
    &&& forall|j: int| k < j < name.len() ==> name[j] != '.' as u8
}

/// What follows the last dot of a file name; nothing where there is no such dot.
pub open spec fn extension(name: Seq<u8>) -> Seq<u8> {
    if exists|k: int| is_last_dot(name, k) {
        name.skip((choose|k: int| is_last_dot(name, k)) + 1)
    } else {
        Seq::empty()
    }
}

/// Equality up to the case of ASCII letters.
pub open spec fn same_nocase(a: Seq<u8>, b: Seq<u8>) -> bool {
    lower_seq(a) == lower_seq(b)
}

/// The content type that goes with an extension. An extension that the table
/// does not hold gets the type of arbitrary bytes.
pub open spec fn media_type(ext: Seq<u8>) -> Seq<u8> {
    if same_nocase(ext, ascii("html"@)) || same_nocase(ext, ascii("htm"@)) {
        ascii("text/html"@)
    } else if same_nocase(ext, ascii("css"@)) {
        ascii("text/css"@)
    } else if same_nocase(ext, ascii("js"@)) || same_nocase(ext, ascii("mjs"@)) {
        ascii("text/javascript"@)
    } else if same_nocase(ext, ascii("json"@)) {
        ascii("application/json"@)
    } else if same_nocase(ext, ascii("txt"@)) {
        ascii("text/plain"@)
    } else if same_nocase(ext, ascii("csv"@)) {
        ascii("text/csv"@)
    } else if same_nocase(ext, ascii("md"@)) {
        ascii("text/markdown"@)
    } else if same_nocase(ext, ascii("xml"@)) {
        ascii("application/xml"@)
    } else if same_nocase(ext, ascii("pdf"@)) {
        ascii("application/pdf"@)
    } else if same_nocase(ext, ascii("wasm"@)) {
        ascii("application/wasm"@)
    } else if same_nocase(ext, ascii("zip"@)) {
        ascii("application/zip"@)
    } else if same_nocase(ext, ascii("gz"@)) {
        ascii("application/gzip"@)
    } else if same_nocase(ext, ascii("tar"@)) {
        ascii("application/x-tar"@)
    } else if same_nocase(ext, ascii("png"@)) {
        ascii("image/png"@)
    } else if same_nocase(ext, ascii("jpg"@)) || same_nocase(ext, ascii("jpeg"@)) {
        ascii("image/jpeg"@)
    } else if same_nocase(ext, ascii("gif"@)) {
        ascii("image/gif"@)
    } else if same_nocase(ext, ascii("svg"@)) {
        ascii("image/svg+xml"@)
    } else if same_nocase(ext, ascii("ico"@)) {
        ascii("image/x-icon"@)
    } else if same_nocase(ext, ascii("webp"@)) {
        ascii("image/webp"@)
    } else if same_nocase(ext, ascii("bmp"@)) {
        ascii("image/bmp"@)
    } else if same_nocase(ext, ascii("woff"@)) {
        ascii("font/woff"@)
    } else if same_nocase(ext, ascii("woff2"@)) {
        ascii("font/woff2"@)
    } else if same_nocase(ext, ascii("ttf"@)) {
        ascii("font/ttf"@)
    } else if same_nocase(ext, ascii("otf"@)) {
        ascii("font/otf"@)
    } else if same_nocase(ext, ascii("mp3"@)) {
        ascii("audio/mpeg"@)
    } else if same_nocase(ext, ascii("wav"@)) {
        ascii("audio/wav"@)
    } else if same_nocase(ext, ascii("ogg"@)) {
        ascii("audio/ogg"@)
    } else if same_nocase(ext, ascii("mp4"@)) {
        ascii("video/mp4"@)
    } else if same_nocase(ext, ascii("webm"@)) {
        ascii("video/webm"@)
    } else {
        ascii("application/octet-stream"@)
    }
}

/// The extension of a file name.
pub fn extension_of(name: &[u8]) -> (r: &[u8])
    ensures
        r@ == extension(name@),
{
    let mut k: usize = name.len();
    while k > 1 && name[k - 1] != '.' as u8
        invariant
            k <= name.len(),
            name.len() >= 1 ==> k >= 1,
            forall|j: int| k <= j < name.len() ==> name@[j] != '.' as u8,
        decreases k,
    {
        k -= 1;
    }
    if k > 1 {
        assert(is_last_dot(name@, k - 1));
        assert forall|other: int| is_last_dot(name@, other) implies other == k - 1 by {
            if other < k - 1 {
                assert(name@[k - 1] == '.' as u8);
            }
        }
        let r = slice_subrange(name, k, name.len());
        assert(r@ =~= name@.skip(k as int));
        r
    } else {
        assert forall|other: int| !is_last_dot(name@, other) by {
            if is_last_dot(name@, other) {
                assert(name@[other] == '.' as u8);
            }
        }
        let r = slice_subrange(name, name.len(), name.len());
        assert(r@ =~= Seq::<u8>::empty());
        r
    }
}

fn ext_is(ext: &[u8], t: &str) -> (r: bool)
    requires
        t.is_ascii(),
    ensures
        r == same_nocase(ext@, ascii(t@)),
{
    is_text_nocase(ext, t)
}

/// The content type that goes with an extension.
pub fn media_type_of(ext: &[u8]) -> (r: Vec<u8>)
    ensures
        r@ == media_type(ext@),
{
    proof {
        reveal_strlit("html");
        reveal_strlit("htm");
        reveal_strlit("text/html");
        reveal_strlit("css");
        reveal_strlit("text/css");
        reveal_strlit("js");
        reveal_strlit("mjs");
        reveal_strlit("text/javascript");
        reveal_strlit("json");
        reveal_strlit("application/json");
        reveal_strlit("txt");
        reveal_strlit("text/plain");
        reveal_strlit("csv");
        reveal_strlit("text/csv");
        reveal_strlit("md");
        reveal_strlit("text/markdown");
        reveal_strlit("xml");
        reveal_strlit("application/xml");
        reveal_strlit("pdf");
        reveal_strlit("application/pdf");
        reveal_strlit("wasm");
        reveal_strlit("application/wasm");
        reveal_strlit("zip");
        reveal_strlit("application/zip");
        reveal_strlit("gz");
        reveal_strlit("application/gzip");
        reveal_strlit("tar");
        reveal_strlit("application/x-tar");
        reveal_strlit("png");
        reveal_strlit("image/png");
        reveal_strlit("jpg");
        reveal_strlit("jpeg");
        reveal_strlit("image/jpeg");
        reveal_strlit("gif");
        reveal_strlit("image/gif");
        reveal_strlit("svg");
        reveal_strlit("image/svg+xml");
        reveal_strlit("ico");
        reveal_strlit("image/x-icon");
        reveal_strlit("webp");
        reveal_strlit("image/webp");
        reveal_strlit("bmp");
        reveal_strlit("image/bmp");
        reveal_strlit("woff");
        reveal_strlit("font/woff");
        reveal_strlit("woff2");
        reveal_strlit("font/woff2");
        reveal_strlit("ttf");
        reveal_strlit("font/ttf");
        reveal_strlit("otf");
        reveal_strlit("font/otf");
        reveal_strlit("mp3");
        reveal_strlit("audio/mpeg");
        reveal_strlit("wav");
        reveal_strlit("audio/wav");
        reveal_strlit("ogg");
        reveal_strlit("audio/ogg");
        reveal_strlit("mp4");
        reveal_strlit("video/mp4");
        reveal_strlit("webm");
        reveal_strlit("video/webm");
        reveal_strlit("application/octet-stream");
    }
    if ext_is(ext, "html") || ext_is(ext, "htm") {
        text_bytes("text/html")
    } else if ext_is(ext, "css") {
        text_bytes("text/css")
    } else if ext_is(ext, "js") || ext_is(ext, "mjs") {
        text_bytes("text/javascript")
    } else if ext_is(ext, "json") {
        text_bytes("application/json")
    } else if ext_is(ext, "txt") {
        text_bytes("text/plain")
    } else if ext_is(ext, "csv") {
        text_bytes("text/csv")
    } else if ext_is(ext, "md") {
        text_bytes("text/markdown")
    } else if ext_is(ext, "xml") {
        text_bytes("application/xml")
    } else if ext_is(ext, "pdf") {
        text_bytes("application/pdf")
    } else if ext_is(ext, "wasm") {
        text_bytes("application/wasm")
    } else if ext_is(ext, "zip") {
        text_bytes("application/zip")
    } else if ext_is(ext, "gz") {
        text_bytes("application/gzip")
    } else if ext_is(ext, "tar") {
        text_bytes("application/x-tar")
    } else if ext_is(ext, "png") {
        text_bytes("image/png")
    } else if ext_is(ext, "jpg") || ext_is(ext, "jpeg") {
        text_bytes("image/jpeg")
    } else if ext_is(ext, "gif") {
        text_bytes("image/gif")
    } else if ext_is(ext, "svg") {
        text_bytes("image/svg+xml")
    } else if ext_is(ext, "ico") {
        text_bytes("image/x-icon")
    } else if ext_is(ext, "webp") {
        text_bytes("image/webp")
    } else if ext_is(ext, "bmp") {
        text_bytes("image/bmp")
    } else if ext_is(ext, "woff") {
        text_bytes("font/woff")
    } else if ext_is(ext, "woff2") {
        text_bytes("font/woff2")
    } else if ext_is(ext, "ttf") {
        text_bytes("font/ttf")
    } else if ext_is(ext, "otf") {
        text_bytes("font/otf")
    } else if ext_is(ext, "mp3") {
        text_bytes("audio/mpeg")
    } else if ext_is(ext, "wav") {
        text_bytes("audio/wav")
    } else if ext_is(ext, "ogg") {
        text_bytes("audio/ogg")
    } else if ext_is(ext, "mp4") {
        text_bytes("video/mp4")
    } else if ext_is(ext, "webm") {
        text_bytes("video/webm")
    } else {
        text_bytes("application/octet-stream")
    }
}

/// The content type of a file, by its name.
pub fn content_type(name: &[u8]) -> (r: Vec<u8>)
    ensures
        r@ == media_type(extension(name@)),
{
    media_type_of(extension_of(name))
}

} // verus!
