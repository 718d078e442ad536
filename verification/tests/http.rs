use gsi::error::GsiError;
use gsi::http::{body_text, check_status};

#[test]
fn body_text_drops_a_leading_byte_order_mark() {
    assert_eq!(body_text("\u{feff}{\"layers\":[]}"), "{\"layers\":[]}");
    assert_eq!(body_text("\u{feff}"), "");
}

#[test]
fn body_text_drops_one_mark_only_and_only_at_the_beginning() {
    assert_eq!(body_text("\u{feff}\u{feff}a"), "\u{feff}a");
    assert_eq!(body_text("a\u{feff}"), "a\u{feff}");
    assert_eq!(body_text("abc"), "abc");
    assert_eq!(body_text(""), "");
}

#[test]
fn check_status_passes_the_statuses_of_success() {
    assert!(check_status(200).is_ok());
    assert!(check_status(204).is_ok());
    assert!(check_status(299).is_ok());
}

#[test]
fn check_status_fails_on_another_status_with_that_status() {
    for status in [0, 100, 199, 300, 301, 404, 500, 65535] {
        match check_status(status) {
            Err(GsiError::HttpResponseIsNotSucceeded(s)) => assert_eq!(s, status),
            other => panic!("{:?}", other),
        }
    }
}
