use recursive_web_loader::crawl::Crawl;
use recursive_web_loader::loader::{Document, RecursiveWebLoader, RecursiveWebLoaderOptions};

const ROOT: &str = "http://example.com";

fn loader_with(max_depth: Option<usize>, exclude_dirs: Option<Vec<String>>) -> RecursiveWebLoader {
    RecursiveWebLoader::new(
        ROOT.to_string(),
        RecursiveWebLoaderOptions { exclude_dirs, max_depth, timeout: None, prevent_outside: None },
    )
}

/// Runs the crawl against a web in which exactly `pages` can be fetched;
/// gives the documents and the addresses fetched, in their order.
fn run(loader: &RecursiveWebLoader, pages: &[(&str, &str)]) -> (Vec<Document>, Vec<String>) {
    let mut fetched = Vec::new();
    let mut crawl = Crawl::new(loader);
    while let Some(url) = crawl.next_fetch() {
        let response = pages
            .iter()
            .find(|(address, _)| *address == url)
            .map(|(_, body)| body.to_string());
        fetched.push(url);
        crawl.answer(response);
    }
    assert!(crawl.is_finished());
    (crawl.into_documents(), fetched)
}

fn contents(documents: &[Document]) -> Vec<String> {
    documents.iter().map(|d| d.page_content.clone()).collect()
}

fn sources(documents: &[Document]) -> Vec<String> {
    documents.iter().map(|d| d.metadata.source.clone()).collect()
}

#[test]
fn new_recursive_web_loader() {
    let root = "<html><body>Hello World <a href=\"/sub\">foobarbaz</a></body></html>";
    let sub = "<html><body>Hi from sub path</body></html>";
    let rwl = RecursiveWebLoader::new(ROOT.to_string(), RecursiveWebLoaderOptions::default());
    let (result, fetched) = run(
        &rwl,
        &[
            ("http://example.com", root),
            ("http://example.com/", root),
            ("http://example.com/sub", sub),
        ],
    );
    assert_eq!(result.len(), 2);
    assert_eq!(result[0].page_content, "Hello World foobarbaz");
    assert_eq!(result[1].page_content, "Hi from sub path");
    assert_eq!(result[0].metadata.get("source"), Some(ROOT.to_string()));
    assert_eq!(result[1].metadata.get("source"), Some("http://example.com/sub".to_string()));
    assert_eq!(fetched, vec!["http://example.com", "http://example.com/", "http://example.com/sub"]);
}

#[test]
fn resource_links_are_never_fetched() {
    let root = "<html><body>Root <a href=\"/sub.css\">style</a></body></html>";
    let (result, fetched) = run(
        &loader_with(None, None),
        &[
            ("http://example.com", root),
            ("http://example.com/", root),
            ("http://example.com/sub.css", "body {}"),
        ],
    );
    assert_eq!(contents(&result), vec!["Root style"]);
    assert_eq!(fetched, vec!["http://example.com", "http://example.com/"]);
}

#[test]
fn depth_bound_stops_the_descent() {
    let root = "<html><body>Root <a href=\"/a/\">a</a></body></html>";
    let a = "<html><body>A <a href=\"/a/b/\">b</a></body></html>";
    let b = "<html><body>B</body></html>";
    let pages = [
        ("http://example.com", root),
        ("http://example.com/", root),
        ("http://example.com/a/", a),
        ("http://example.com/a/b/", b),
    ];
    let (result, fetched) = run(&loader_with(Some(1), None), &pages);
    assert_eq!(sources(&result), vec!["http://example.com", "http://example.com/a/"]);
    assert_eq!(contents(&result), vec!["Root a", "A b"]);
    assert!(!fetched.contains(&"http://example.com/a/b/".to_string()));
    assert_eq!(fetched, vec!["http://example.com", "http://example.com/", "http://example.com/a/"]);
}

#[test]
fn depth_two_reaches_the_grandchild() {
    let root = "<html><body>Root <a href=\"/a/\">a</a></body></html>";
    let a = "<html><body>A <a href=\"/a/b/\">b</a></body></html>";
    let b = "<html><body>B <a href=\"/a/b/c/\">c</a></body></html>";
    let pages = [
        ("http://example.com", root),
        ("http://example.com/", root),
        ("http://example.com/a/", a),
        ("http://example.com/a/b/", b),
        ("http://example.com/a/b/c/", "<html><body>C</body></html>"),
    ];
    let (result, fetched) = run(&loader_with(Some(2), None), &pages);
    assert_eq!(
        sources(&result),
        vec!["http://example.com", "http://example.com/a/", "http://example.com/a/b/"]
    );
    assert_eq!(
        fetched,
        vec![
            "http://example.com",
            "http://example.com/",
            "http://example.com/a/",
            "http://example.com/a/",
            "http://example.com/a/b/",
        ]
    );
}

#[test]
fn outside_links_are_never_fetched() {
    let root = "<html><body>Root <a href=\"http://external.example/\">out</a></body></html>";
    let (result, fetched) = run(
        &loader_with(None, None),
        &[
            ("http://example.com", root),
            ("http://example.com/", root),
            ("http://external.example/", "<html><body>Out</body></html>"),
        ],
    );
    assert_eq!(result.len(), 1);
    assert!(!fetched.contains(&"http://external.example/".to_string()));
}

#[test]
fn depth_zero_yields_the_root_alone() {
    let root = "<html><body>Root <a href=\"/sub\">sub</a></body></html>";
    let (result, fetched) = run(
        &loader_with(Some(0), None),
        &[
            ("http://example.com", root),
            ("http://example.com/", root),
            ("http://example.com/sub", "<html><body>Sub</body></html>"),
        ],
    );
    assert_eq!(result.len(), 1);
    assert_eq!(result[0].page_content, "Root sub");
    assert_eq!(fetched, vec!["http://example.com"]);
}

#[test]
fn failed_root_yields_nothing() {
    let (result, fetched) = run(
        &loader_with(None, None),
        &[("http://example.com/", "<html><body>Root</body></html>")],
    );
    assert!(result.is_empty());
    assert_eq!(fetched, vec!["http://example.com"]);
}

#[test]
fn a_link_met_twice_is_fetched_once() {
    let root = "<html><body><a href=\"/p\">one</a><a href=\"/p\">two</a><a href=\"/q\">q</a></body></html>";
    let (result, fetched) = run(
        &loader_with(None, None),
        &[
            ("http://example.com", root),
            ("http://example.com/", root),
            ("http://example.com/p", "<html><body>P</body></html>"),
            ("http://example.com/q", "<html><body>Q</body></html>"),
        ],
    );
    assert_eq!(
        sources(&result),
        vec!["http://example.com", "http://example.com/p", "http://example.com/q"]
    );
    assert_eq!(fetched.iter().filter(|u| *u == "http://example.com/p").count(), 1);
}

#[test]
fn cycles_end() {
    let a = "<html><body>A <a href=\"/b/\">b</a></body></html>";
    let b = "<html><body>B <a href=\"/a/\">a</a><a href=\"/b/\">self</a></body></html>";
    let loader = RecursiveWebLoader::new(
        "http://example.com/a/".to_string(),
        RecursiveWebLoaderOptions {
            exclude_dirs: None,
            max_depth: Some(10),
            timeout: None,
            prevent_outside: Some(false),
        },
    );
    let (result, fetched) = run(
        &loader,
        &[("http://example.com/a/", a), ("http://example.com/b/", b)],
    );
    assert_eq!(contents(&result), vec!["A b", "B a self"]);
    assert_eq!(
        fetched,
        vec![
            "http://example.com/a/",
            "http://example.com/a/",
            "http://example.com/b/",
            "http://example.com/b/",
        ]
    );
}

#[test]
fn the_root_is_not_fetched_again_as_a_link() {
    let root = "<html><body>Root <a href=\"http://example.com\">home</a></body></html>";
    let (result, fetched) = run(
        &loader_with(None, None),
        &[("http://example.com", root), ("http://example.com/", root)],
    );
    assert_eq!(result.len(), 1);
    assert_eq!(fetched, vec!["http://example.com", "http://example.com/"]);
}

#[test]
fn a_failed_child_does_not_stop_its_siblings() {
    let root = "<html><body><a href=\"/gone\">gone</a><a href=\"/there\">there</a></body></html>";
    let (result, fetched) = run(
        &loader_with(None, None),
        &[
            ("http://example.com", root),
            ("http://example.com/", root),
            ("http://example.com/there", "<html><body>There</body></html>"),
        ],
    );
    assert_eq!(sources(&result), vec!["http://example.com", "http://example.com/there"]);
    assert_eq!(
        fetched,
        vec![
            "http://example.com",
            "http://example.com/",
            "http://example.com/gone",
            "http://example.com/there",
        ]
    );
}

#[test]
fn a_failed_expansion_keeps_the_document() {
    let root = "<html><body>Root <a href=\"/sub\">sub</a></body></html>";
    let (result, fetched) = run(&loader_with(None, None), &[("http://example.com", root)]);
    assert_eq!(contents(&result), vec!["Root sub"]);
    assert_eq!(fetched, vec!["http://example.com", "http://example.com/"]);
}

#[test]
fn an_excluded_root_is_not_expanded() {
    let root = "<html><body>Root <a href=\"/sub\">sub</a></body></html>";
    let (result, fetched) = run(
        &loader_with(None, Some(vec!["http://example.com/".to_string()])),
        &[("http://example.com", root), ("http://example.com/", root)],
    );
    assert_eq!(result.len(), 1);
    assert_eq!(fetched, vec!["http://example.com"]);
}

#[test]
fn an_excluded_directory_is_pruned() {
    let root = "<html><body><a href=\"/private/\">p</a><a href=\"/public/\">q</a></body></html>";
    let (result, fetched) = run(
        &loader_with(None, Some(vec!["http://example.com/private/".to_string()])),
        &[
            ("http://example.com", root),
            ("http://example.com/", root),
            ("http://example.com/private/", "<html><body>P</body></html>"),
            ("http://example.com/public/", "<html><body>Q</body></html>"),
        ],
    );
    assert_eq!(sources(&result), vec!["http://example.com", "http://example.com/public/"]);
    assert!(!fetched.contains(&"http://example.com/private/".to_string()));
}

#[test]
fn a_link_without_slash_is_not_expanded() {
    let root = "<html><body><a href=\"/article\">a</a></body></html>";
    let article = "<html><body>Article <a href=\"/article/more\">more</a></body></html>";
    let (result, fetched) = run(
        &loader_with(Some(5), None),
        &[
            ("http://example.com", root),
            ("http://example.com/", root),
            ("http://example.com/article", article),
            ("http://example.com/article/", article),
            ("http://example.com/article/more", "<html><body>More</body></html>"),
        ],
    );
    assert_eq!(sources(&result), vec!["http://example.com", "http://example.com/article"]);
    assert_eq!(
        fetched,
        vec!["http://example.com", "http://example.com/", "http://example.com/article"]
    );
}

#[test]
fn documents_come_depth_first_in_link_order() {
    let root = "<html><body><a href=\"/a/\">a</a><a href=\"/b/\">b</a></body></html>";
    let a = "<html><body><a href=\"/a/x\">x</a><a href=\"/a/y\">y</a></body></html>";
    let b = "<html><body><a href=\"/b/z\">z</a></body></html>";
    let (result, _) = run(
        &loader_with(Some(2), None),
        &[
            ("http://example.com", root),
            ("http://example.com/", root),
            ("http://example.com/a/", a),
            ("http://example.com/a/x", "<html><body>X</body></html>"),
            ("http://example.com/a/y", "<html><body>Y</body></html>"),
            ("http://example.com/b/", b),
            ("http://example.com/b/z", "<html><body>Z</body></html>"),
        ],
    );
    assert_eq!(
        sources(&result),
        vec![
            "http://example.com",
            "http://example.com/a/",
            "http://example.com/a/x",
            "http://example.com/a/y",
            "http://example.com/b/",
            "http://example.com/b/z",
        ]
    );
}

#[test]
fn a_finished_crawl_stays_finished() {
    let loader = loader_with(Some(0), None);
    let mut crawl = Crawl::new(&loader);
    assert!(!crawl.is_finished());
    assert_eq!(crawl.next_fetch(), Some(ROOT.to_string()));
    crawl.answer(Some("<html><body>Root</body></html>".to_string()));
    assert!(crawl.is_finished());
    assert_eq!(crawl.next_fetch(), None);
    crawl.answer(Some("<html><body>Again</body></html>".to_string()));
    assert!(crawl.is_finished());
    assert_eq!(crawl.into_documents().len(), 1);
}

#[test]
fn get_url_as_doc_makes_a_document_of_an_answer() {
    let loader = loader_with(None, None);
    let document = loader
        .get_url_as_doc(
            "http://example.com/x",
            &Some("<html lang=\"en\"><head><title>T</title></head><body>Some <b>text</b></body></html>".to_string()),
        )
        .unwrap();
    assert_eq!(document.page_content, "Some text");
    assert_eq!(document.metadata.get("source"), Some("http://example.com/x".to_string()));
    assert_eq!(document.metadata.get("title"), Some("T".to_string()));
    assert_eq!(document.metadata.get("language"), Some("en".to_string()));
    assert!(loader.get_url_as_doc("http://example.com/x", &None).is_none());
}
