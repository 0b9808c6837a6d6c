use link_checker::url::{is_url_external, is_url_scrapeable, normalize_url, starts_with, Config};

fn site() -> Config {
    Config::new(String::from("sophiabits.com"))
}

fn text(s: &str) -> String {
    String::from(s)
}

#[test]
fn config_keeps_the_domain_and_derives_the_seed() {
    let config = site();
    assert_eq!(config.domain(), "sophiabits.com");
    assert_eq!(config.seed_url(), "https://sophiabits.com");
}

#[test]
fn config_of_an_empty_domain_has_the_bare_scheme_as_seed() {
    let config = Config::new(String::new());
    assert_eq!(config.seed_url(), "https://");
}

#[test]
fn starts_with_compares_characters() {
    assert!(starts_with("abc", ""));
    assert!(starts_with("", ""));
    assert!(starts_with("abc", "a"));
    assert!(starts_with("abc", "abc"));
    assert!(!starts_with("abc", "abcd"));
    assert!(!starts_with("abc", "b"));
    assert!(!starts_with("", "a"));
    assert!(starts_with("\u{e9}t\u{e9}", "\u{e9}t"));
    assert!(!starts_with("\u{e9}t\u{e9}", "e"));
}

#[test]
fn urls_of_the_domain_are_internal() {
    let config = site();
    assert!(!is_url_external(&config, &text("https://sophiabits.com")));
    assert!(!is_url_external(&config, &text("https://sophiabits.com/")));
    assert!(!is_url_external(&config, &text("https://sophiabits.com/about")));
    assert!(!is_url_external(&config, &text("https://sophiabits.com?page=2")));
}

#[test]
fn urls_elsewhere_are_external() {
    let config = site();
    assert!(is_url_external(&config, &text("https://external.example")));
    assert!(is_url_external(&config, &text("http://sophiabits.com")));
    assert!(is_url_external(&config, &text("https://www.sophiabits.com")));
    assert!(is_url_external(&config, &text("HTTPS://sophiabits.com")));
    assert!(is_url_external(&config, &text("https://sophiabits.co")));
    assert!(is_url_external(&config, &text("")));
}

#[test]
fn a_path_that_was_not_normalized_is_external() {
    let config = site();
    assert!(is_url_external(&config, &text("/about")));
    assert!(is_url_external(&config, &text("about.html")));
    assert!(is_url_external(&config, &text("sophiabits.com/about")));
}

#[test]
fn a_longer_host_with_the_same_start_counts_as_internal() {
    let config = site();
    assert!(!is_url_external(&config, &text("https://sophiabits.com.evil.com")));
    assert!(!is_url_external(&config, &text("https://sophiabits.community/")));
}

#[test]
fn classification_gives_the_same_answer_each_time() {
    let config = site();
    let inside = text("https://sophiabits.com/about");
    let outside = text("https://external.example");
    let mail = text("mailto:a@b.com");
    for _ in 0..3 {
        assert!(!is_url_external(&config, &inside));
        assert!(is_url_external(&config, &outside));
        assert!(is_url_scrapeable(&inside));
        assert!(!is_url_scrapeable(&mail));
    }
    let again = site();
    assert_eq!(is_url_external(&config, &inside), is_url_external(&again, &inside));
    assert_eq!(is_url_external(&config, &outside), is_url_external(&again, &outside));
}

#[test]
fn mail_and_fragment_links_are_not_scrapeable() {
    assert!(!is_url_scrapeable(&text("mailto:a@b.com")));
    assert!(!is_url_scrapeable(&text("mailto:")));
    assert!(!is_url_scrapeable(&text("#top")));
    assert!(!is_url_scrapeable(&text("#")));
}

#[test]
fn other_links_are_scrapeable() {
    assert!(is_url_scrapeable(&text("/about")));
    assert!(is_url_scrapeable(&text("https://external.example")));
    assert!(is_url_scrapeable(&text("https://sophiabits.com/#top")));
    assert!(is_url_scrapeable(&text("/contact?mailto:a@b.com")));
    assert!(is_url_scrapeable(&text("")));
    assert!(is_url_scrapeable(&text("MAILTO:a@b.com")));
    assert!(is_url_scrapeable(&text(" #top")));
    assert!(is_url_scrapeable(&text("mailto")));
    assert!(is_url_scrapeable(&text("tel:+123")));
}

#[test]
fn a_rooted_path_is_put_behind_the_origin() {
    let config = site();
    assert_eq!(normalize_url(&config, &text("/about")), "https://sophiabits.com/about");
    assert_eq!(normalize_url(&config, &text("/")), "https://sophiabits.com/");
    assert_eq!(normalize_url(&config, &text("/a/b?c=d#e")), "https://sophiabits.com/a/b?c=d#e");
}

#[test]
fn a_url_with_two_leading_slashes_is_left_alone() {
    let config = site();
    assert_eq!(normalize_url(&config, &text("//host/path")), "//host/path");
    assert_eq!(normalize_url(&config, &text("//")), "//");
    assert_eq!(normalize_url(&config, &text("///a")), "///a");
    assert!(is_url_external(&config, &text("//host/path")));
}

#[test]
fn a_second_slash_further_on_does_not_count() {
    let config = site();
    assert_eq!(normalize_url(&config, &text("/a//b")), "https://sophiabits.com/a//b");
    assert_eq!(normalize_url(&config, &text("/a/")), "https://sophiabits.com/a/");
}

#[test]
fn an_absolute_url_is_left_alone() {
    let config = site();
    for url in [
        "https://sophiabits.com",
        "https://sophiabits.com/about",
        "https://external.example",
        "http://sophiabits.com/",
        "mailto:a@b.com",
        "#top",
        "",
    ] {
        assert_eq!(normalize_url(&config, &text(url)), url);
    }
}

#[test]
fn other_relative_forms_are_left_alone() {
    let config = site();
    for url in ["./about", "../about", "about", "host/path", "?page=2", "//host/path"] {
        assert_eq!(normalize_url(&config, &text(url)), url);
    }
}

#[test]
fn normalizing_twice_changes_nothing_more() {
    let config = site();
    for url in ["/about", "/", "//host/path", "https://sophiabits.com/x", "about", "#top", ""] {
        let once = normalize_url(&config, &text(url));
        let twice = normalize_url(&config, &once);
        assert_eq!(once, twice);
    }
}

#[test]
fn a_normalized_rooted_path_is_internal() {
    let config = site();
    let absolute = normalize_url(&config, &text("/about"));
    assert!(!is_url_external(&config, &absolute));
}
