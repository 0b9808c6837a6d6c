use link_checker::report::{error_report, format_error};

#[test]
fn an_error_line_is_the_url_behind_the_prefix() {
    let url = String::from("https://sophiabits.com/about");
    assert_eq!(format_error(&url), "ERROR: https://sophiabits.com/about");
}

#[test]
fn an_error_line_of_an_empty_url_is_the_prefix() {
    assert_eq!(format_error(&String::new()), "ERROR: ");
}

#[test]
fn the_report_has_one_line_for_each_failure_in_order() {
    let errors = vec![
        String::from("https://sophiabits.com/b"),
        String::from("https://external.example"),
        String::from("https://sophiabits.com/b"),
    ];
    assert_eq!(
        error_report(&errors),
        vec![
            "ERROR: https://sophiabits.com/b",
            "ERROR: https://external.example",
            "ERROR: https://sophiabits.com/b",
        ]
    );
}

#[test]
fn the_report_of_a_clean_crawl_is_empty() {
    assert!(error_report(&Vec::new()).is_empty());
}
