use static_serve::dispatch::{advance, begin, handle, Stage, Step};
use static_serve::path::{Entry, Probe, RootDir};
use static_serve::respond::{Body, Request, Response};

/// What stands at one path of a directory tree held in memory.
#[derive(Clone)]
enum Node {
    File { content: Vec<u8>, modified_secs: u64, modified_nanos: u32 },
    Directory,
    Link(String),
}

#[derive(Clone)]
struct Tree {
    nodes: Vec<(String, Node)>,
}

impl Tree {
    fn new() -> Tree {
        Tree { nodes: vec![("/srv/www".to_string(), Node::Directory)] }
    }

    fn write(&mut self, path: &str, content: &str, modified_secs: u64) {
        let node =
            Node::File { content: content.as_bytes().to_vec(), modified_secs, modified_nanos: 0 };
        self.nodes.retain(|(at, _)| at != path);
        self.nodes.push((path.to_string(), node));
    }

    fn put(&mut self, path: &str, node: Node) {
        self.nodes.push((path.to_string(), node));
    }

    fn node(&self, path: &str) -> Option<&Node> {
        self.nodes.iter().find(|(at, _)| at == path).map(|(_, node)| node)
    }

    fn look_up(&self, path: &[u8]) -> Probe {
        let mut at = String::from_utf8(path.to_vec()).expect("a path in UTF-8");
        loop {
            match self.node(&at) {
                None => return Probe::Missing,
                Some(Node::Link(to)) => at = to.clone(),
                Some(Node::Directory) => {
                    return Probe::Found(Entry {
                        canonical_path: at.into_bytes(),
                        is_directory: true,
                        size: 4096,
                        modified_secs: 0,
                        modified_nanos: 0,
                    })
                }
                Some(Node::File { content, modified_secs, modified_nanos }) => {
                    return Probe::Found(Entry {
                        canonical_path: at.into_bytes(),
                        is_directory: false,
                        size: content.len() as u64,
                        modified_secs: *modified_secs,
                        modified_nanos: *modified_nanos,
                    })
                }
            }
        }
    }

    fn body_of(&self, response: &Response) -> Vec<u8> {
        match &response.body {
            Body::Empty => Vec::new(),
            Body::File { path, offset, length } => {
                let at = String::from_utf8(path.clone()).expect("a path in UTF-8");
                match self.node(&at) {
                    Some(Node::File { content, .. }) => {
                        content[*offset as usize..(*offset + *length) as usize].to_vec()
                    }
                    _ => panic!("the response names no file"),
                }
            }
        }
    }

    fn serve(&self, request: &Request) -> Response {
        let root = RootDir::new(b"/srv/www").expect("a canonical path");
        handle(&root, request, |path: &[u8]| self.look_up(path))
    }
}

fn get(path: &str) -> Request {
    Request {
        method: b"GET".to_vec(),
        path: path.as_bytes().to_vec(),
        if_none_match: None,
        if_modified_since: None,
        range: None,
    }
}

fn site() -> Tree {
    let mut tree = Tree::new();
    tree.write("/srv/www/test.txt", "Hello, world!", 784111777);
    tree
}

#[test]
fn test_build_app() {
    let tree = site();

    let response = tree.serve(&get("/test.txt"));

    assert_eq!(response.status, 200);
    assert_eq!(&tree.body_of(&response)[..], b"Hello, world!");
}

#[test]
fn test_serve_file() {
    let tree = site();

    let response = tree.serve(&get("/test.txt"));

    assert_eq!(response.status, 200);
    let body = tree.body_of(&response);
    assert_eq!(&body[..], b"Hello, world!");
}

#[test]
fn test_not_found() {
    let tree = Tree::new();

    let response = tree.serve(&get("/nonexistent.txt"));

    assert_eq!(response.status, 404);
}

#[test]
fn not_found_leaves_the_server_answering() {
    let tree = site();
    let missing = tree.serve(&get("/nonexistent.txt"));
    assert_eq!(missing.status, 404);
    assert!(missing.headers.is_empty());
    assert_eq!(missing.body, Body::Empty);

    let after = tree.serve(&get("/test.txt"));
    assert_eq!(after.status, 200);
    assert_eq!(tree.body_of(&after), b"Hello, world!".to_vec());
}

#[test]
fn range_of_the_first_five_bytes() {
    let tree = site();
    let mut request = get("/test.txt");
    request.range = Some(b"bytes=0-4".to_vec());

    let response = tree.serve(&request);

    assert_eq!(response.status, 206);
    assert_eq!(response.header(b"Content-Range"), Some(b"bytes 0-4/13".to_vec()));
    assert_eq!(tree.body_of(&response), b"Hello".to_vec());
}

#[test]
fn current_entity_tag_gets_not_modified() {
    let tree = site();
    let first = tree.serve(&get("/test.txt"));
    let mut request = get("/test.txt");
    request.if_none_match = first.header(b"ETag");
    assert!(request.if_none_match.is_some());

    let second = tree.serve(&request);

    assert_eq!(second.status, 304);
    assert_eq!(second.body, Body::Empty);
    assert!(tree.body_of(&second).is_empty());
}

#[test]
fn overwritten_file_is_served_fresh() {
    let mut tree = Tree::new();
    tree.write("/srv/www/page.txt", "first version", 1700000000);
    let first = tree.serve(&get("/page.txt"));
    assert_eq!(first.status, 200);
    assert_eq!(tree.body_of(&first), b"first version".to_vec());
    let first_tag = first.header(b"ETag").expect("an entity tag");

    tree.write("/srv/www/page.txt", "second version, longer", 1700000005);
    let mut again = get("/page.txt");
    again.if_none_match = Some(first_tag.clone());
    let second = tree.serve(&again);

    assert_eq!(second.status, 200);
    assert_eq!(tree.body_of(&second), b"second version, longer".to_vec());
    let second_tag = second.header(b"ETag").expect("an entity tag");
    assert_ne!(first_tag, second_tag);
}

#[test]
fn overwritten_file_of_the_same_size_has_a_new_tag() {
    let mut tree = Tree::new();
    tree.write("/srv/www/page.txt", "aaaa", 1700000000);
    let first = tree.serve(&get("/page.txt")).header(b"ETag");
    tree.write("/srv/www/page.txt", "bbbb", 1700000001);
    let second = tree.serve(&get("/page.txt"));
    assert_ne!(first, second.header(b"ETag"));
    assert_eq!(tree.body_of(&second), b"bbbb".to_vec());
}

#[test]
fn traversal_is_forbidden_without_a_lookup() {
    let root = RootDir::new(b"/srv/www").expect("a canonical path");
    let response = handle(&root, &get("../../etc/passwd"), |_: &[u8]| -> Probe {
        panic!("nothing is to be looked up")
    });
    assert_eq!(response.status, 403);
    assert!(response.headers.is_empty());
    assert_eq!(response.body, Body::Empty);
}

#[test]
fn link_out_of_the_root_is_forbidden() {
    let mut tree = site();
    tree.put("/etc/passwd", Node::File { content: b"root".to_vec(), modified_secs: 1, modified_nanos: 0 });
    tree.put("/srv/www/escape", Node::Link("/etc/passwd".to_string()));

    let response = tree.serve(&get("/escape"));

    assert_eq!(response.status, 403);
    assert_eq!(response.body, Body::Empty);
}

#[test]
fn link_inside_the_root_is_followed() {
    let mut tree = site();
    tree.put("/srv/www/alias.html", Node::Link("/srv/www/test.txt".to_string()));

    let response = tree.serve(&get("/alias.html"));

    assert_eq!(response.status, 200);
    assert_eq!(response.header(b"Content-Type"), Some(b"text/plain".to_vec()));
    assert_eq!(tree.body_of(&response), b"Hello, world!".to_vec());
}

#[test]
fn directory_serves_its_index_document() {
    let mut tree = site();
    tree.put("/srv/www/docs", Node::Directory);
    tree.write("/srv/www/docs/index.html", "<p>docs</p>", 5);
    tree.write("/srv/www/index.html", "<p>home</p>", 5);

    let docs = tree.serve(&get("/docs/"));
    assert_eq!(docs.status, 200);
    assert_eq!(docs.header(b"Content-Type"), Some(b"text/html".to_vec()));
    assert_eq!(tree.body_of(&docs), b"<p>docs</p>".to_vec());

    let home = tree.serve(&get("/"));
    assert_eq!(home.status, 200);
    assert_eq!(tree.body_of(&home), b"<p>home</p>".to_vec());
}

#[test]
fn directory_without_an_index_document_is_not_found() {
    let mut tree = site();
    tree.put("/srv/www/empty", Node::Directory);
    assert_eq!(tree.serve(&get("/empty")).status, 404);

    tree.put("/srv/www/odd", Node::Directory);
    tree.put("/srv/www/odd/index.html", Node::Directory);
    assert_eq!(tree.serve(&get("/odd")).status, 404);
}

#[test]
fn index_document_that_links_out_of_the_root_is_forbidden() {
    let mut tree = site();
    tree.put("/etc/motd", Node::File { content: b"hi".to_vec(), modified_secs: 1, modified_nanos: 0 });
    tree.put("/srv/www/docs", Node::Directory);
    tree.put("/srv/www/docs/index.html", Node::Link("/etc/motd".to_string()));
    assert_eq!(tree.serve(&get("/docs")).status, 403);
}

#[test]
fn other_methods_are_not_allowed() {
    let tree = site();
    for method in ["POST", "HEAD", "PUT", "DELETE", "get", ""] {
        let mut request = get("/test.txt");
        request.method = method.as_bytes().to_vec();
        let response = tree.serve(&request);
        assert_eq!(response.status, 405);
        assert_eq!(response.header(b"Allow"), Some(b"GET".to_vec()));
        assert_eq!(response.body, Body::Empty);
    }
}

#[test]
fn moves_one_by_one() {
    let root = RootDir::new(b"/srv/www").expect("a canonical path");
    let mut tree = site();
    tree.put("/srv/www/docs", Node::Directory);
    tree.write("/srv/www/docs/index.html", "<p>docs</p>", 5);
    let request = get("/docs");

    let first = begin(&root, &request);
    assert_eq!(first, Step::Lookup(b"/srv/www/docs".to_vec()));

    let second = advance(&root, &request, Stage::Target, &tree.look_up(b"/srv/www/docs"));
    assert_eq!(second, Step::Lookup(b"/srv/www/docs/index.html".to_vec()));

    let third =
        advance(&root, &request, Stage::Index, &tree.look_up(b"/srv/www/docs/index.html"));
    match third {
        Step::Reply(response) => {
            assert_eq!(response.status, 200);
            assert_eq!(tree.body_of(&response), b"<p>docs</p>".to_vec());
        }
        Step::Lookup(_) => panic!("a third lookup"),
    }
}

#[test]
fn first_move_refuses_what_needs_no_lookup() {
    let root = RootDir::new(b"/srv/www").expect("a canonical path");
    match begin(&root, &get("/../secret")) {
        Step::Reply(response) => assert_eq!(response.status, 403),
        Step::Lookup(_) => panic!("a lookup outside the root"),
    }
    let mut post = get("/test.txt");
    post.method = b"POST".to_vec();
    match begin(&root, &post) {
        Step::Reply(response) => assert_eq!(response.status, 405),
        Step::Lookup(_) => panic!("a lookup for a refused method"),
    }
}
