use static_serve::path::{
    confirm, decode, locate, resolve, split_on, Entry, Probe, ResolveError, RootDir,
};

fn root() -> RootDir {
    RootDir::new(b"/srv/www").expect("a canonical path")
}

fn found(path: &[u8], is_directory: bool) -> Probe {
    Probe::Found(Entry {
        canonical_path: path.to_vec(),
        is_directory,
        size: 13,
        modified_secs: 784111777,
        modified_nanos: 0,
    })
}

#[test]
fn traversal_out_of_the_root_is_forbidden() {
    assert_eq!(locate(&root(), b"../../etc/passwd"), Err(ResolveError::Forbidden));
    assert_eq!(locate(&root(), b"/../../etc/passwd"), Err(ResolveError::Forbidden));
    assert_eq!(locate(&root(), b"/a/../../b"), Err(ResolveError::Forbidden));
    assert_eq!(locate(&root(), b"/.."), Err(ResolveError::Forbidden));
}

#[test]
fn encoded_traversal_is_forbidden() {
    assert_eq!(locate(&root(), b"/%2e%2e/%2e%2e/etc/passwd"), Err(ResolveError::Forbidden));
    assert_eq!(locate(&root(), b"/%2E%2E%2Fsecret"), Err(ResolveError::Forbidden));
}

#[test]
fn sibling_with_the_root_as_prefix_of_its_name_is_forbidden() {
    assert_eq!(locate(&root(), b"/../www2/index.html"), Err(ResolveError::Forbidden));
}

#[test]
fn plain_path_is_joined_to_the_root() {
    assert_eq!(locate(&root(), b"/test.txt"), Ok(b"/srv/www/test.txt".to_vec()));
    assert_eq!(locate(&root(), b"/"), Ok(b"/srv/www".to_vec()));
    assert_eq!(locate(&root(), b""), Ok(b"/srv/www".to_vec()));
    assert_eq!(locate(&root(), b"a/b/c.html"), Ok(b"/srv/www/a/b/c.html".to_vec()));
}

#[test]
fn dots_and_doubled_slashes_collapse() {
    assert_eq!(locate(&root(), b"/a/./b//c/../d"), Ok(b"/srv/www/a/b/d".to_vec()));
    assert_eq!(locate(&root(), b"/a/b/../../"), Ok(b"/srv/www".to_vec()));
    assert_eq!(locate(&root(), b"/a/..."), Ok(b"/srv/www/a/...".to_vec()));
}

#[test]
fn a_walk_may_leave_the_root_and_come_back() {
    assert_eq!(locate(&root(), b"/../www/test.txt"), Ok(b"/srv/www/test.txt".to_vec()));
}

#[test]
fn the_top_directory_is_its_own_parent() {
    let top = RootDir::new(b"/").expect("a canonical path");
    assert_eq!(locate(&top, b"/../../etc"), Ok(b"/etc".to_vec()));
    assert_eq!(locate(&top, b"/.."), Ok(b"/".to_vec()));
}

#[test]
fn escapes_are_decoded_before_the_walk() {
    assert_eq!(locate(&root(), b"/hello%20world.txt"), Ok(b"/srv/www/hello world.txt".to_vec()));
    assert_eq!(locate(&root(), b"/a%2Fb"), Ok(b"/srv/www/a/b".to_vec()));
}

#[test]
fn decode_reads_escapes_and_keeps_the_rest() {
    assert_eq!(decode(b"%41%62%7e"), b"Ab~".to_vec());
    assert_eq!(decode(b"%4a%4A"), b"JJ".to_vec());
    assert_eq!(decode(b"100%"), b"100%".to_vec());
    assert_eq!(decode(b"%zz%4"), b"%zz%4".to_vec());
    assert_eq!(decode(b"%%41"), b"%A".to_vec());
    assert_eq!(decode(b"%00%ff"), vec![0u8, 255u8]);
    assert_eq!(decode(b""), Vec::<u8>::new());
}

#[test]
fn split_keeps_empty_pieces() {
    assert_eq!(split_on(b"a/b", b'/'), vec![b"a".to_vec(), b"b".to_vec()]);
    assert_eq!(split_on(b"/a//", b'/'), vec![vec![], b"a".to_vec(), vec![], vec![]]);
    assert_eq!(split_on(b"", b'/'), vec![Vec::<u8>::new()]);
}

#[test]
fn root_must_be_canonical() {
    assert!(RootDir::new(b"/srv/www").is_some());
    assert!(RootDir::new(b"/").is_some());
    assert!(RootDir::new(b"").is_none());
    assert!(RootDir::new(b"srv/www").is_none());
    assert!(RootDir::new(b"/srv/www/").is_none());
    assert!(RootDir::new(b"/srv//www").is_none());
    assert!(RootDir::new(b"/srv/./www").is_none());
    assert!(RootDir::new(b"/srv/../www").is_none());
}

#[test]
fn root_gives_its_path_back() {
    assert_eq!(root().path(), b"/srv/www".to_vec());
    assert_eq!(RootDir::new(b"/").unwrap().path(), b"/".to_vec());
}

#[test]
fn missing_entry_is_not_found() {
    assert_eq!(confirm(&root(), &Probe::Missing), Err(ResolveError::NotFound));
}

#[test]
fn entry_outside_the_root_is_forbidden() {
    assert_eq!(confirm(&root(), &found(b"/etc/passwd", false)), Err(ResolveError::Forbidden));
    assert_eq!(confirm(&root(), &found(b"/srv", true)), Err(ResolveError::Forbidden));
    assert_eq!(confirm(&root(), &found(b"/srv/www2/x", false)), Err(ResolveError::Forbidden));
    assert_eq!(confirm(&root(), &found(b"relative/x", false)), Err(ResolveError::Forbidden));
}

#[test]
fn entry_under_the_root_is_confirmed() {
    let file = confirm(&root(), &found(b"/srv/www/a/test.txt", false)).expect("a file");
    assert!(!file.is_directory());
    assert_eq!(file.absolute_path(), b"/srv/www/a/test.txt".to_vec());
    assert_eq!(file.file_name(), b"test.txt".to_vec());

    let dir = confirm(&root(), &found(b"/srv/www", true)).expect("the root");
    assert!(dir.is_directory());
    assert_eq!(dir.absolute_path(), b"/srv/www".to_vec());
    assert_eq!(dir.index_path(), b"/srv/www/index.html".to_vec());
}

#[test]
fn resolve_refuses_the_example_traversal() {
    let probe = found(b"/etc/passwd", false);
    assert_eq!(resolve(&root(), b"../../etc/passwd", &probe), Err(ResolveError::Forbidden));
}

#[test]
fn resolve_judges_the_lookup_of_a_path_inside() {
    assert_eq!(resolve(&root(), b"/test.txt", &Probe::Missing), Err(ResolveError::NotFound));
    let escaped = found(b"/etc/passwd", false);
    assert_eq!(resolve(&root(), b"/link", &escaped), Err(ResolveError::Forbidden));
    let inside = found(b"/srv/www/test.txt", false);
    let resolved = resolve(&root(), b"/test.txt", &inside).expect("a file");
    assert_eq!(resolved.absolute_path(), b"/srv/www/test.txt".to_vec());
}
