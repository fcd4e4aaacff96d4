use recursive_web_loader::content::{
    collapse_spaces, collect_text_not_in_script, join_fragments, replace_breaks, text_of_events,
};
use recursive_web_loader::loader::{RecursiveWebLoader, RecursiveWebLoaderOptions};
use recursive_web_loader::markup::MarkupEvent;

fn loader() -> RecursiveWebLoader {
    RecursiveWebLoader::new("http://example.com".to_string(), RecursiveWebLoaderOptions::default())
}

fn element(name: &str) -> MarkupEvent {
    MarkupEvent::Element(name.to_string())
}

fn text_node(text: &str) -> Vec<MarkupEvent> {
    vec![MarkupEvent::Text(text.to_string()), MarkupEvent::Close]
}

#[test]
fn collect_reads_text_outside_script() {
    let mut events = vec![element("body")];
    events.extend(text_node("Hello"));
    events.push(element("script"));
    events.extend(text_node("var x = 1;"));
    events.push(MarkupEvent::Close);
    events.push(element("p"));
    events.extend(text_node("World"));
    events.push(MarkupEvent::Close);
    events.push(MarkupEvent::Close);
    let mut text = Vec::new();
    collect_text_not_in_script(&events, &mut text);
    assert_eq!(text, vec!["Hello".to_string(), "World".to_string()]);
}

#[test]
fn collect_appends_to_what_is_there() {
    let mut text = vec!["before".to_string()];
    collect_text_not_in_script(&text_node("after"), &mut text);
    assert_eq!(text, vec!["before".to_string(), "after".to_string()]);
}

#[test]
fn collect_skips_elements_nested_in_script() {
    let mut events = vec![element("script"), element("b")];
    events.extend(text_node("hidden"));
    events.push(MarkupEvent::Close);
    events.extend(text_node("hidden too"));
    events.push(MarkupEvent::Close);
    events.extend(text_node("shown"));
    let mut text = Vec::new();
    collect_text_not_in_script(&events, &mut text);
    assert_eq!(text, vec!["shown".to_string()]);
}

#[test]
fn collect_skips_what_lies_in_other_nodes() {
    let mut events = vec![MarkupEvent::Other];
    events.extend(text_node("inside a comment"));
    events.push(MarkupEvent::Close);
    events.extend(text_node("outside"));
    let mut text = Vec::new();
    collect_text_not_in_script(&events, &mut text);
    assert_eq!(text, vec!["outside".to_string()]);
}

#[test]
fn collect_of_nothing_is_nothing() {
    let mut text = Vec::new();
    collect_text_not_in_script(&Vec::new(), &mut text);
    assert!(text.is_empty());
}

#[test]
fn join_puts_one_space_between() {
    assert_eq!(join_fragments(&Vec::new()), "");
    assert_eq!(join_fragments(&vec!["a".to_string()]), "a");
    assert_eq!(join_fragments(&vec!["a".to_string(), "b".to_string(), "".to_string()]), "a b ");
    assert_eq!(join_fragments(&vec!["".to_string(), "".to_string()]), " ");
}

#[test]
fn replace_breaks_turns_line_feed_and_tab_into_space() {
    assert_eq!(replace_breaks("a\nb\tc\r d"), "a b c\r d");
    assert_eq!(replace_breaks(""), "");
}

#[test]
fn collapse_brings_runs_down_to_one_space() {
    assert_eq!(collapse_spaces("a  b"), "a b");
    assert_eq!(collapse_spaces("a \r\n\t b"), "a b");
    assert_eq!(collapse_spaces("  a  "), " a ");
    assert_eq!(collapse_spaces("\t"), " ");
    assert_eq!(collapse_spaces(""), "");
    assert_eq!(collapse_spaces("abc"), "abc");
}

#[test]
fn collapse_knows_white_space_beyond_ascii() {
    assert_eq!(collapse_spaces("a\u{a0}\u{2003}b"), "a b");
    assert_eq!(collapse_spaces("a\u{3000}b"), "a b");
    assert_eq!(collapse_spaces("a\u{85}\u{1680}\u{2028}\u{2029}\u{202f}\u{205f}b"), "a b");
    assert_eq!(collapse_spaces("a\u{b}\u{c}b"), "a b");
    assert_eq!(collapse_spaces("a\u{200b}b"), "a\u{200b}b");
}

#[test]
fn collapse_leaves_normal_text_alone() {
    let once = collapse_spaces("x \n y\t\tz");
    assert_eq!(collapse_spaces(&once), once);
    assert_eq!(replace_breaks(&once), once);
}

#[test]
fn text_of_events_joins_and_normalises() {
    let mut events = vec![element("body")];
    events.extend(text_node("Hello World "));
    events.push(element("a"));
    events.extend(text_node("foobarbaz"));
    events.push(MarkupEvent::Close);
    events.push(MarkupEvent::Close);
    assert_eq!(text_of_events(&events), "Hello World foobarbaz");
}

#[test]
fn extractor_reads_the_body() {
    let text = loader().extractor(
        "<html><body>Hello World <a href=\"/sub\">foobarbaz</a></body></html>",
    );
    assert_eq!(text, "Hello World foobarbaz");
}

#[test]
fn extractor_leaves_script_content_out() {
    let text = loader().extractor(
        "<html><body><p>Hello</p><script>var hidden = \"secret\";</script><p>World</p></body></html>",
    );
    assert_eq!(text, "Hello World");
    assert!(!text.contains("secret"));
}

#[test]
fn extractor_leaves_nested_script_content_out() {
    let text = loader().extractor(
        "<html><body><div>one<div><script>two</script>three</div></div></body></html>",
    );
    assert_eq!(text, "one three");
}

#[test]
fn extractor_leaves_comments_out() {
    let text = loader().extractor("<html><body>a<!-- note -->b</body></html>");
    assert_eq!(text, "a b");
}

#[test]
fn extractor_normalises_white_space() {
    let text = loader().extractor("<html><body><p>a\n\n\tb</p><p>c   d</p></body></html>");
    assert_eq!(text, "a b c d");
    assert!(!text.contains("  "));
    assert!(!text.contains('\n'));
    assert!(!text.contains('\t'));
}

#[test]
fn extractor_of_an_empty_page_is_empty() {
    assert_eq!(loader().extractor(""), "");
    assert_eq!(loader().extractor("<html><head><title>t</title></head><body></body></html>"), "");
}

#[test]
fn extractor_ignores_the_head() {
    let text = loader().extractor(
        "<html><head><title>Title</title><script>head()</script></head><body>Body</body></html>",
    );
    assert_eq!(text, "Body");
}

#[test]
fn extractor_is_repeatable() {
    let page = "<html><body>x <b>y</b> <script>z</script></body></html>";
    assert_eq!(loader().extractor(page), loader().extractor(page));
}
