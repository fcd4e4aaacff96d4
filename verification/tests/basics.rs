use recursive_web_loader::add;
use recursive_web_loader::loader::{RecursiveWebLoader, RecursiveWebLoaderOptions};
use recursive_web_loader::text::{chars_of, ends_with, owned, same_text, starts_with, string_of};

#[test]
fn it_works() {
    let result = add(2, 2);
    assert_eq!(result, 4);
}

#[test]
fn add_zero_is_identity() {
    assert_eq!(add(0, 7), 7);
    assert_eq!(add(7, 0), 7);
}

#[test]
fn default_options_leave_everything_open() {
    let options = RecursiveWebLoaderOptions::default();
    assert!(options.exclude_dirs.is_none());
    assert!(options.max_depth.is_none());
    assert!(options.timeout.is_none());
    assert!(options.prevent_outside.is_none());
}

#[test]
fn new_fills_in_defaults() {
    let loader = RecursiveWebLoader::new(
        "http://example.com".to_string(),
        RecursiveWebLoaderOptions::default(),
    );
    assert_eq!(loader.url, "http://example.com");
    assert!(loader.exclude_dirs.is_empty());
    assert_eq!(loader.max_depth, 2);
    assert_eq!(loader.timeout, 10000);
    assert!(loader.prevent_outside);
}

#[test]
fn new_keeps_given_options() {
    let loader = RecursiveWebLoader::new(
        "http://example.com/docs/".to_string(),
        RecursiveWebLoaderOptions {
            exclude_dirs: Some(vec!["http://example.com/docs/private/".to_string()]),
            max_depth: Some(0),
            timeout: Some(250),
            prevent_outside: Some(false),
        },
    );
    assert_eq!(loader.url, "http://example.com/docs/");
    assert_eq!(loader.exclude_dirs, vec!["http://example.com/docs/private/".to_string()]);
    assert_eq!(loader.max_depth, 0);
    assert_eq!(loader.timeout, 250);
    assert!(!loader.prevent_outside);
}

#[test]
fn chars_and_strings_convert_both_ways() {
    assert_eq!(chars_of("a\u{e9}\u{1f600}"), vec!['a', '\u{e9}', '\u{1f600}']);
    assert_eq!(chars_of(""), Vec::<char>::new());
    assert_eq!(string_of(&vec!['h', 'i', '\u{e9}']), "hi\u{e9}");
    assert_eq!(string_of(&Vec::new()), "");
    assert_eq!(owned("abc"), "abc");
}

#[test]
fn prefix_and_suffix_tests() {
    assert!(starts_with("http://x", "http"));
    assert!(starts_with("http", "http"));
    assert!(starts_with("anything", ""));
    assert!(!starts_with("htt", "http"));
    assert!(!starts_with("xhttp", "http"));
    assert!(ends_with("style.css", ".css"));
    assert!(ends_with(".css", ".css"));
    assert!(ends_with("anything", ""));
    assert!(!ends_with("css", ".css"));
    assert!(!ends_with("style.css?x", ".css"));
    assert!(ends_with("caf\u{e9}", "f\u{e9}"));
}

#[test]
fn same_text_compares_characters() {
    assert!(same_text("script", "script"));
    assert!(same_text("", ""));
    assert!(!same_text("script", "scripts"));
    assert!(!same_text("script", "Script"));
}
