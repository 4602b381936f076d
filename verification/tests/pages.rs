use doc_crawler::link::{is_well_formed_reference, make_absolute_url};
use doc_crawler::page::{
    content_of, page_links, resolve_links, scrape_page_data, title_of, PageRecord,
};
use doc_crawler::text::join_with;

fn owned(parts: &[&str]) -> Vec<String> {
    parts.iter().map(|part| String::from(*part)).collect()
}

#[test]
fn relative_reference_resolves_against_the_base() {
    assert_eq!(
        make_absolute_url("https://a.example/docs/x", "../y"),
        Some(String::from("https://a.example/y"))
    );
}

#[test]
fn absolute_reference_replaces_the_base() {
    assert_eq!(
        make_absolute_url("https://a.example/docs/x", "https://other.example/z"),
        Some(String::from("https://other.example/z"))
    );
}

#[test]
fn malformed_reference_resolves_to_nothing() {
    assert_eq!(make_absolute_url("https://a.example/x", "not a url \t"), None);
}

#[test]
fn malformed_base_resolves_to_nothing() {
    assert_eq!(make_absolute_url("not a base", "/y"), None);
    assert_eq!(make_absolute_url("", "y"), None);
    assert_eq!(make_absolute_url("/only/a/path", "y"), None);
}

#[test]
fn references_of_every_kind_resolve() {
    let base = "https://a.example/docs/guide/intro.html?v=1#top";
    assert_eq!(
        make_absolute_url(base, "next.html"),
        Some(String::from("https://a.example/docs/guide/next.html"))
    );
    assert_eq!(make_absolute_url(base, "/root"), Some(String::from("https://a.example/root")));
    assert_eq!(
        make_absolute_url(base, "//cdn.example/lib.js"),
        Some(String::from("https://cdn.example/lib.js"))
    );
    assert_eq!(
        make_absolute_url(base, "#part"),
        Some(String::from("https://a.example/docs/guide/intro.html?v=1#part"))
    );
    assert_eq!(
        make_absolute_url(base, "?v=2"),
        Some(String::from("https://a.example/docs/guide/intro.html?v=2"))
    );
    assert_eq!(
        make_absolute_url(base, ""),
        Some(String::from("https://a.example/docs/guide/intro.html?v=1"))
    );
    assert_eq!(
        make_absolute_url(base, "./a/../b/"),
        Some(String::from("https://a.example/docs/guide/b/"))
    );
}

#[test]
fn resolution_keeps_query_fragment_and_case() {
    assert_eq!(
        make_absolute_url("https://a.example/", "/Path/To?Q=UPPER&x=%2F#Frag"),
        Some(String::from("https://a.example/Path/To?Q=UPPER&x=%2F#Frag"))
    );
}

#[test]
fn reference_that_cannot_be_joined_resolves_to_nothing() {
    assert!(is_well_formed_reference("http://[broken"));
    assert_eq!(make_absolute_url("https://a.example/", "http://[broken"), None);
    assert!(is_well_formed_reference("x"));
    assert_eq!(make_absolute_url("mailto:someone@a.example", "x"), None);
}

#[test]
fn well_formed_references_hold_reference_characters_only() {
    assert!(is_well_formed_reference(""));
    assert!(is_well_formed_reference("../y"));
    assert!(is_well_formed_reference("https://other.example/z"));
    assert!(is_well_formed_reference("a-b.c_d~e:/?#[]@!$&'()*+,;=%20"));
    assert!(is_well_formed_reference("AZaz09"));
    assert!(!is_well_formed_reference("not a url \t"));
    assert!(!is_well_formed_reference("a b"));
    assert!(!is_well_formed_reference("tab\there"));
    assert!(!is_well_formed_reference("line\nbreak"));
    assert!(!is_well_formed_reference("caf\u{e9}"));
    assert!(!is_well_formed_reference("a\"b"));
    assert!(!is_well_formed_reference("a<b>"));
    assert!(!is_well_formed_reference("a\\b"));
    assert!(!is_well_formed_reference("a^b"));
    assert!(!is_well_formed_reference("a`b"));
    assert!(!is_well_formed_reference("{a|b}"));
    assert!(!is_well_formed_reference("\u{7f}"));
}

#[test]
fn join_puts_the_separator_between_neighbours() {
    assert_eq!(join_with(&owned(&[]), ", "), "");
    assert_eq!(join_with(&owned(&["one"]), ", "), "one");
    assert_eq!(join_with(&owned(&["one", "two", "three"]), ", "), "one, two, three");
    assert_eq!(join_with(&owned(&["", ""]), "-"), "-");
    assert_eq!(join_with(&owned(&["a", "b", "c"]), ""), "abc");
}

#[test]
fn page_without_heading_gets_the_placeholder_title() {
    let record = scrape_page_data("<html><body><p>Only text.</p></body></html>", "https://a.example/");
    assert_eq!(record.title, "No title found");
    assert_eq!(record.url, "https://a.example/");
    assert_eq!(record.content, "Only text.");
}

#[test]
fn empty_page_gets_placeholder_and_empty_content() {
    let record = scrape_page_data("", "https://a.example/empty");
    assert_eq!(
        record,
        PageRecord {
            title: String::from("No title found"),
            url: String::from("https://a.example/empty"),
            content: String::new(),
        }
    );
}

#[test]
fn title_is_the_first_heading_with_its_pieces_joined_by_spaces() {
    let body = "<html><body><h1>Getting <em>started</em> now</h1><h1>Second</h1></body></html>";
    let record = scrape_page_data(body, "https://a.example/start");
    assert_eq!(record.title, "Getting  started  now");
    assert_eq!(record.content, "");
}

#[test]
fn content_is_one_line_for_each_paragraph_and_code_element() {
    let body = "<html><body><h1>T</h1><p>First <b>bold</b> text.</p><div>left out</div>\
                <pre><code>let x = 1;</code></pre><p>Last.</p></body></html>";
    let record = scrape_page_data(body, "https://a.example/c");
    assert_eq!(record.title, "T");
    assert_eq!(record.content, "First bold text.\nlet x = 1;\nLast.");
}

#[test]
fn code_inside_a_paragraph_is_read_with_it_and_again_by_itself() {
    let body = "<p>Call <code>run()</code> twice.</p>";
    let record = scrape_page_data(body, "https://a.example/c");
    assert_eq!(record.content, "Call run() twice.\nrun()");
}

#[test]
fn title_of_takes_the_first_heading_or_the_placeholder() {
    assert_eq!(title_of(&None), "No title found");
    assert_eq!(title_of(&Some(vec![])), "No title found");
    assert_eq!(title_of(&Some(vec![owned(&[])])), "");
    assert_eq!(title_of(&Some(vec![owned(&["a", "b"]), owned(&["c"])])), "a b");
}

#[test]
fn content_of_joins_the_blocks_by_newlines() {
    assert_eq!(content_of(&None), "");
    assert_eq!(content_of(&Some(vec![])), "");
    assert_eq!(content_of(&Some(vec![owned(&["a", "b"]), owned(&[]), owned(&["c"])])), "ab\n\nc");
}

#[test]
fn links_are_resolved_in_the_order_of_the_anchors() {
    let body = "<html><body><a href=\"b\">b</a><a name=\"none\">no reference</a>\
                <a href=\"not a url \t\">bad</a><p><a href=\"/a\">a</a></p>\
                <a href=\"https://other.example/z\">z</a><a href=\"b\">again</a></body></html>";
    assert_eq!(
        page_links(body, "https://a.example/docs/x"),
        vec![
            String::from("https://a.example/docs/b"),
            String::from("https://a.example/a"),
            String::from("https://other.example/z"),
            String::from("https://a.example/docs/b"),
        ]
    );
}

#[test]
fn page_without_anchors_has_no_links() {
    assert!(page_links("<p>nothing</p>", "https://a.example/").is_empty());
    assert!(page_links("", "https://a.example/").is_empty());
}

#[test]
fn links_of_a_page_with_an_unusable_address_are_dropped() {
    assert!(page_links("<a href=\"/a\">a</a>", "not a base").is_empty());
}

#[test]
fn resolve_links_passes_over_what_does_not_resolve() {
    assert!(resolve_links("https://a.example/", &None).is_empty());
    let hrefs = Some(vec![
        None,
        Some(String::from("x y")),
        Some(String::from("k")),
        None,
        Some(String::from("http://[broken")),
        Some(String::from("/m")),
    ]);
    assert_eq!(
        resolve_links("https://a.example/d/", &hrefs),
        vec![String::from("https://a.example/d/k"), String::from("https://a.example/m")]
    );
}

#[test]
fn a_record_can_be_copied() {
    let record = scrape_page_data("<h1>T</h1><p>c</p>", "https://a.example/");
    let copy = record.clone();
    assert_eq!(copy, record);
    assert_eq!(copy.title, "T");
}
