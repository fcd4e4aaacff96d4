use recursive_web_loader::links::resolve_href;
use recursive_web_loader::loader::{RecursiveWebLoader, RecursiveWebLoaderOptions};

fn loader() -> RecursiveWebLoader {
    RecursiveWebLoader::new("http://example.com".to_string(), RecursiveWebLoaderOptions::default())
}

fn open_loader() -> RecursiveWebLoader {
    RecursiveWebLoader::new(
        "http://example.com".to_string(),
        RecursiveWebLoaderOptions {
            exclude_dirs: None,
            max_depth: None,
            timeout: None,
            prevent_outside: Some(false),
        },
    )
}

fn page(hrefs: &[&str]) -> String {
    let mut html = String::from("<html><body>");
    for href in hrefs {
        html.push_str(&format!("<a href=\"{}\">x</a>", href));
    }
    html.push_str("</body></html>");
    html
}

#[test]
fn resolve_keeps_http_links() {
    assert_eq!(
        resolve_href("http://other.example/x", "https", Some("joined".to_string())),
        Some("http://other.example/x".to_string())
    );
    assert_eq!(resolve_href("https://a/b", "http", None), Some("https://a/b".to_string()));
    assert_eq!(resolve_href("httpfoo", "http", None), Some("httpfoo".to_string()));
}

#[test]
fn resolve_puts_the_scheme_before_two_slashes() {
    assert_eq!(
        resolve_href("//cdn.example.com/x", "https", Some("joined".to_string())),
        Some("https://cdn.example.com/x".to_string())
    );
}

#[test]
fn resolve_takes_what_joining_gave() {
    assert_eq!(
        resolve_href("/sub", "http", Some("http://example.com/sub".to_string())),
        Some("http://example.com/sub".to_string())
    );
    assert_eq!(resolve_href("/sub", "http", None), None);
}

#[test]
fn excludes_tests_prefixes() {
    let loader = RecursiveWebLoader::new(
        "http://example.com".to_string(),
        RecursiveWebLoaderOptions {
            exclude_dirs: Some(vec![
                "http://example.com/private/".to_string(),
                "http://example.com/tmp".to_string(),
            ]),
            max_depth: None,
            timeout: None,
            prevent_outside: None,
        },
    );
    assert!(loader.excludes("http://example.com/private/a"));
    assert!(loader.excludes("http://example.com/tmp"));
    assert!(loader.excludes("http://example.com/tmpfile"));
    assert!(!loader.excludes("http://example.com/private"));
    assert!(!loader.excludes("http://example.com/public/private/"));
    assert!(!self::loader().excludes("http://example.com/private/a"));
}

#[test]
fn keeps_link_drops_resources() {
    let base = "http://example.com/";
    for ending in [".css", ".js", ".ico", ".png", ".jpg", ".jpeg", ".gif", ".svg"] {
        assert!(!loader().keeps_link(&format!("http://example.com/file{}", ending), base));
    }
    assert!(loader().keeps_link("http://example.com/file.html", base));
    assert!(loader().keeps_link("http://example.com/file.css/", base));
    assert!(loader().keeps_link("http://example.com/file.CSS", base));
    assert!(loader().keeps_link("http://example.com/file", base));
}

#[test]
fn keeps_link_drops_script_and_mail() {
    assert!(!open_loader().keeps_link("javascript:void(0)", "http://example.com/"));
    assert!(!open_loader().keeps_link("mailto:someone@example.com", "http://example.com/"));
    assert!(open_loader().keeps_link("ftp://example.com/x", "http://example.com/"));
}

#[test]
fn keeps_link_stays_inside_when_asked() {
    assert!(!loader().keeps_link("http://external.example/", "http://example.com/"));
    assert!(open_loader().keeps_link("http://external.example/", "http://example.com/"));
    assert!(loader().keeps_link("http://example.com/a/b", "http://example.com/a/"));
    assert!(!loader().keeps_link("http://example.com/b", "http://example.com/a/"));
    assert!(loader().keeps_link("http://example.com/a/", "http://example.com/a/"));
}

#[test]
fn child_links_resolve_against_the_page() {
    let links = loader().get_child_links(
        &page(&["/sub", "page", "./here/", "#top", "?q=1"]),
        "http://example.com/",
    );
    assert_eq!(
        links,
        vec![
            "http://example.com/sub".to_string(),
            "http://example.com/page".to_string(),
            "http://example.com/here/".to_string(),
            "http://example.com/#top".to_string(),
            "http://example.com/?q=1".to_string(),
        ]
    );
}

#[test]
fn child_links_resolve_parent_paths() {
    let links = open_loader().get_child_links(&page(&["../up", "down"]), "http://example.com/a/b/");
    assert_eq!(
        links,
        vec!["http://example.com/a/up".to_string(), "http://example.com/a/b/down".to_string()]
    );
}

#[test]
fn child_links_keep_order_and_repetitions() {
    let links = loader().get_child_links(&page(&["/b", "/a", "/b"]), "http://example.com/");
    assert_eq!(
        links,
        vec![
            "http://example.com/b".to_string(),
            "http://example.com/a".to_string(),
            "http://example.com/b".to_string(),
        ]
    );
}

#[test]
fn child_links_skip_anchors_without_href() {
    let links = loader().get_child_links(
        "<html><body><a name=\"x\">no</a><a href=\"/yes\">yes</a></body></html>",
        "http://example.com/",
    );
    assert_eq!(links, vec!["http://example.com/yes".to_string()]);
}

#[test]
fn child_links_drop_resources_before_any_fetch() {
    let links = loader().get_child_links(&page(&["/sub.css", "/app.js", "/logo.png"]), "http://example.com/");
    assert!(links.is_empty());
}

#[test]
fn child_links_drop_outside_links() {
    let links = loader().get_child_links(
        &page(&["http://external.example/", "/inside"]),
        "http://example.com/",
    );
    assert_eq!(links, vec!["http://example.com/inside".to_string()]);
}

#[test]
fn child_links_keep_outside_links_when_allowed() {
    let links = open_loader().get_child_links(
        &page(&["http://external.example/", "//cdn.example.com/lib/"]),
        "https://example.com/",
    );
    assert_eq!(
        links,
        vec!["http://external.example/".to_string(), "https://cdn.example.com/lib/".to_string()]
    );
}

#[test]
fn child_links_drop_script_and_mail() {
    let links = open_loader().get_child_links(
        &page(&["javascript:void(0)", "mailto:a@example.com", "/ok"]),
        "http://example.com/",
    );
    assert_eq!(links, vec!["http://example.com/ok".to_string()]);
}

#[test]
fn child_links_drop_excluded_directories() {
    let loader = RecursiveWebLoader::new(
        "http://example.com".to_string(),
        RecursiveWebLoaderOptions {
            exclude_dirs: Some(vec!["http://example.com/private/".to_string()]),
            max_depth: None,
            timeout: None,
            prevent_outside: None,
        },
    );
    let links = loader.get_child_links(&page(&["/private/a", "/public/a"]), "http://example.com/");
    assert_eq!(links, vec!["http://example.com/public/a".to_string()]);
}

#[test]
fn child_links_measure_containment_by_the_written_address() {
    let links = loader().get_child_links(&page(&["/sub"]), "HTTP://EXAMPLE.com");
    assert_eq!(links, vec!["http://example.com/sub".to_string()]);
}

#[test]
fn child_links_of_a_page_without_address_are_none() {
    let links = open_loader().get_child_links(&page(&["http://example.com/a", "/b"]), "not an address");
    assert!(links.is_empty());
}

#[test]
fn child_links_are_repeatable() {
    let html = page(&["/a", "b/", "http://example.com/c"]);
    assert_eq!(
        loader().get_child_links(&html, "http://example.com/"),
        loader().get_child_links(&html, "http://example.com/")
    );
}
