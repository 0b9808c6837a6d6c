use link_checker::links::{
    can_read, collect_links, extract_hrefs, present_values, MAX_PAGE_BYTES,
};

fn some(s: &str) -> Option<String> {
    Some(String::from(s))
}

fn hrefs_of(body: &str) -> Vec<String> {
    match extract_hrefs(body) {
        Some(hrefs) => hrefs,
        None => panic!("the page was refused"),
    }
}

#[test]
fn present_values_drops_the_gaps_and_keeps_the_order() {
    let attrs = vec![some("/a"), None, some("/b"), None, None, some("/a")];
    assert_eq!(present_values(attrs), vec!["/a", "/b", "/a"]);
}

#[test]
fn present_values_of_nothing_is_nothing() {
    assert!(present_values(Vec::new()).is_empty());
    assert!(present_values(vec![None, None]).is_empty());
}

#[test]
fn present_values_keeps_an_empty_value() {
    assert_eq!(present_values(vec![some(""), None]), vec![""]);
}

#[test]
fn collected_links_are_the_values_that_are_there() {
    let found = Some(vec![None, some("/a"), some("#b"), None]);
    assert_eq!(collect_links(found), vec!["/a", "#b"]);
    assert!(collect_links(Some(Vec::new())).is_empty());
}

#[test]
fn nothing_selected_means_no_links() {
    assert!(collect_links(None).is_empty());
}

#[test]
fn hrefs_come_in_document_order() {
    let body = "<html><body><p><a href=\"/first\">1</a></p>\
                <div><a href=\"https://external.example\">2</a>\
                <span><a href=\"#third\">3</a></span></div>\
                <a href=\"mailto:a@b.com\">4</a></body></html>";
    assert_eq!(
        hrefs_of(body),
        vec!["/first", "https://external.example", "#third", "mailto:a@b.com"]
    );
}

#[test]
fn anchors_without_href_are_left_out() {
    let body = "<a name=\"top\">top</a><a href=\"/about\">about</a><a>bare</a>";
    assert_eq!(hrefs_of(body), vec!["/about"]);
}

#[test]
fn an_empty_href_is_a_link() {
    assert_eq!(hrefs_of("<a href=\"\">here</a>"), vec![""]);
}

#[test]
fn a_link_that_stands_twice_is_found_twice() {
    let body = "<a href=\"/about\">a</a><a href=\"/about\">b</a>";
    assert_eq!(hrefs_of(body), vec!["/about", "/about"]);
}

#[test]
fn only_anchors_count() {
    let body = "<head><link href=\"/style.css\"></head>\
                <body><img src=\"/logo.png\"><area href=\"/map\"><a href=\"/only\">x</a></body>";
    assert_eq!(hrefs_of(body), vec!["/only"]);
}

#[test]
fn a_page_without_anchors_has_no_links() {
    assert!(hrefs_of("<p>nothing to see</p>").is_empty());
    assert!(hrefs_of("plain text").is_empty());
}

#[test]
fn an_empty_page_has_no_links() {
    assert!(hrefs_of("").is_empty());
}

#[test]
fn broken_markup_yields_what_can_be_made_out() {
    let body = "<div><span>unclosed<a href=\"/one\">1</a></div></span></b><a href=/two>2</a><p";
    assert_eq!(hrefs_of(body), vec!["/one", "/two"]);
}

#[test]
fn the_page_text_itself_is_not_a_link() {
    let body = "<a href=\"/about\">/not-a-link</a>";
    let hrefs = hrefs_of(body);
    assert_eq!(hrefs.len(), 1);
    assert_ne!(hrefs[0], body);
    assert_eq!(hrefs[0], "/about");
}

#[test]
fn character_references_in_a_link_are_decoded() {
    assert_eq!(hrefs_of("<a href=\"/a?b=1&amp;c=2\">x</a>"), vec!["/a?b=1&c=2"]);
}

#[test]
fn a_page_of_the_greatest_length_is_readable() {
    let mut body = String::from("<a href=\"/first\">x</a>");
    let padding = MAX_PAGE_BYTES - body.len();
    body.push_str(&" ".repeat(padding));
    assert_eq!(body.len(), MAX_PAGE_BYTES);
    assert!(can_read(&body));
}

#[test]
fn a_page_that_is_too_long_is_refused() {
    let mut body = String::from("<a href=\"/first\">x</a>");
    let padding = MAX_PAGE_BYTES + 1 - body.len();
    body.push_str(&" ".repeat(padding));
    assert_eq!(body.len(), MAX_PAGE_BYTES + 1);
    assert!(!can_read(&body));
    assert!(extract_hrefs(&body).is_none());
}

#[test]
fn the_length_of_a_page_is_counted_in_bytes() {
    assert_eq!(MAX_PAGE_BYTES, 536_870_912);
    let body = "\u{e9}".repeat(MAX_PAGE_BYTES / 2);
    assert!(can_read(&body));
    let body = "\u{e9}".repeat(MAX_PAGE_BYTES / 2 + 1);
    assert!(!can_read(&body));
}

#[test]
fn short_pages_can_be_read() {
    assert!(can_read(""));
    assert!(can_read("<p>hello</p>"));
}
