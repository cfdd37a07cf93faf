use static_serve::media::{content_type, extension_of, media_type_of};

fn type_of(name: &str) -> String {
    String::from_utf8(content_type(name.as_bytes())).expect("ASCII")
}

#[test]
fn extension_follows_the_last_dot() {
    assert_eq!(extension_of(b"test.txt"), b"txt");
    assert_eq!(extension_of(b"archive.tar.gz"), b"gz");
    assert_eq!(extension_of(b"a..b"), b"b");
    assert_eq!(extension_of(b"trailing."), b"");
}

#[test]
fn a_name_without_a_dot_inside_has_no_extension() {
    assert_eq!(extension_of(b"README"), b"");
    assert_eq!(extension_of(b".bashrc"), b"");
    assert_eq!(extension_of(b"."), b"");
    assert_eq!(extension_of(b""), b"");
    assert_eq!(extension_of(b".config.json"), b"json");
}

#[test]
fn common_types_are_known() {
    assert_eq!(type_of("index.html"), "text/html");
    assert_eq!(type_of("index.htm"), "text/html");
    assert_eq!(type_of("test.txt"), "text/plain");
    assert_eq!(type_of("style.css"), "text/css");
    assert_eq!(type_of("app.js"), "text/javascript");
    assert_eq!(type_of("app.mjs"), "text/javascript");
    assert_eq!(type_of("data.json"), "application/json");
    assert_eq!(type_of("data.csv"), "text/csv");
    assert_eq!(type_of("notes.md"), "text/markdown");
    assert_eq!(type_of("feed.xml"), "application/xml");
    assert_eq!(type_of("paper.pdf"), "application/pdf");
    assert_eq!(type_of("module.wasm"), "application/wasm");
    assert_eq!(type_of("files.zip"), "application/zip");
    assert_eq!(type_of("files.tar.gz"), "application/gzip");
    assert_eq!(type_of("files.tar"), "application/x-tar");
}

#[test]
fn images_fonts_sound_and_film_are_known() {
    assert_eq!(type_of("a.png"), "image/png");
    assert_eq!(type_of("a.jpg"), "image/jpeg");
    assert_eq!(type_of("a.jpeg"), "image/jpeg");
    assert_eq!(type_of("a.gif"), "image/gif");
    assert_eq!(type_of("a.svg"), "image/svg+xml");
    assert_eq!(type_of("favicon.ico"), "image/x-icon");
    assert_eq!(type_of("a.webp"), "image/webp");
    assert_eq!(type_of("a.bmp"), "image/bmp");
    assert_eq!(type_of("a.woff"), "font/woff");
    assert_eq!(type_of("a.woff2"), "font/woff2");
    assert_eq!(type_of("a.ttf"), "font/ttf");
    assert_eq!(type_of("a.otf"), "font/otf");
    assert_eq!(type_of("a.mp3"), "audio/mpeg");
    assert_eq!(type_of("a.wav"), "audio/wav");
    assert_eq!(type_of("a.ogg"), "audio/ogg");
    assert_eq!(type_of("a.mp4"), "video/mp4");
    assert_eq!(type_of("a.webm"), "video/webm");
}

#[test]
fn case_of_the_extension_does_not_matter() {
    assert_eq!(type_of("INDEX.HTML"), "text/html");
    assert_eq!(type_of("photo.JpEg"), "image/jpeg");
    assert_eq!(media_type_of(b"TXT"), b"text/plain".to_vec());
}

#[test]
fn unknown_extension_is_arbitrary_bytes() {
    assert_eq!(type_of("a.xyz"), "application/octet-stream");
    assert_eq!(type_of("README"), "application/octet-stream");
    assert_eq!(type_of(".html"), "application/octet-stream");
    assert_eq!(type_of("a.html5"), "application/octet-stream");
    assert_eq!(media_type_of(b""), b"application/octet-stream".to_vec());
}
