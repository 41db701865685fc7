use webdav_core::auth::{basic_authorization, check_credentials};
use webdav_core::ordered::StringMap;
use webdav_core::request::{
    is_usable_destination, parse_depth, parse_destination, parse_overwrite, parse_range,
};
use webdav_core::text::{decimal_text, ends_with_separator};
use webdav_core::values::{Depth, Overwrite, Range};

fn header(value: &str) -> Option<String> {
    Some(value.to_string())
}

#[test]
fn depth_header_defaults_to_infinity() {
    assert_eq!(parse_depth(None), Depth::Infinity);
    assert_eq!(parse_depth(header("0")), Depth::Zero);
    assert_eq!(parse_depth(header("1")), Depth::One);
    assert_eq!(parse_depth(header("infinity")), Depth::Infinity);
    assert_eq!(parse_depth(header("2")), Depth::Infinity);
}

#[test]
fn overwrite_header_defaults_to_true() {
    assert_eq!(parse_overwrite(None), Overwrite::True);
    assert_eq!(parse_overwrite(header("T")), Overwrite::True);
    assert_eq!(parse_overwrite(header("F")), Overwrite::False);
    assert_eq!(parse_overwrite(header("no")), Overwrite::True);
}

#[test]
fn range_header_names_bytes() {
    let none = Range {
        start: None,
        end: None,
    };
    assert_eq!(
        parse_range(header("bytes=5-9")),
        Range {
            start: Some(5),
            end: Some(9)
        }
    );
    assert_eq!(
        parse_range(header("10-19")),
        Range {
            start: Some(10),
            end: Some(19)
        }
    );
    assert_eq!(parse_range(None), none);
    assert_eq!(parse_range(header("bytes=")), none);
    assert_eq!(parse_range(header("bytes=5-")), none);
    assert_eq!(parse_range(header("bytes=0-1;bytes=2-3")), none);
    assert_eq!(parse_range(header("items=5-9")), none);
    assert_eq!(parse_range(header("bytes=bytes=5-9")), none);
}

#[test]
fn destination_header_gives_the_path_after_the_host() {
    assert_eq!(parse_destination(None), "");
    assert_eq!(
        parse_destination(header("http://example.com/dir/file.txt")),
        "dir/file.txt"
    );
    assert_eq!(parse_destination(header("http://example.com/")), "");
    assert_eq!(parse_destination(header("http://example.com")), "");
    assert_eq!(parse_destination(header("http://h:8080/a/b/")), "a/b/");
    assert_eq!(
        parse_destination(header("http://a/x/http://b/y")),
        "x/"
    );
}

#[test]
fn destination_header_needs_the_scheme() {
    assert!(is_usable_destination(&None));
    assert!(is_usable_destination(&header("http://example.com/a")));
    assert!(is_usable_destination(&header("see http://x")));
    assert!(!is_usable_destination(&header("https://example.com/a")));
    assert!(!is_usable_destination(&header("/a/b")));
    assert!(!is_usable_destination(&header("")));
}

#[test]
fn basic_authorization_checks_user_and_password() {
    let user = || "user".to_string();
    let pass = || "pass".to_string();
    // "user:pass"
    assert!(basic_authorization(header("Basic dXNlcjpwYXNz"), user(), pass()));
    assert!(!basic_authorization(None, user(), pass()));
    assert!(!basic_authorization(header("dXNlcjpwYXNz"), user(), pass()));
    assert!(!basic_authorization(header("Bearer dXNlcjpwYXNz"), user(), pass()));
    assert!(!basic_authorization(header("Basic  dXNlcjpwYXNz"), user(), pass()));
    assert!(!basic_authorization(header("Basic dXNlcjpwYXNz x"), user(), pass()));
    assert!(!basic_authorization(header("Basic not base64!"), user(), pass()));
    // "user:wrong"
    assert!(!basic_authorization(header("Basic dXNlcjp3cm9uZw=="), user(), pass()));
    // "user:pa:ss"
    assert!(!basic_authorization(
        header("Basic dXNlcjpwYTpzcw=="),
        user(),
        "pa:ss".to_string()
    ));
    // bytes ff fe: no text
    assert!(!basic_authorization(header("Basic //4="), user(), pass()));
}

#[test]
fn credentials_are_name_colon_password() {
    assert!(check_credentials("user:pass", "user", "pass"));
    assert!(check_credentials(":", "", ""));
    assert!(!check_credentials("userpass", "user", "pass"));
    assert!(!check_credentials("user:pass:", "user", "pass:"));
    assert!(!check_credentials("user:pass", "user", "pas"));
    assert!(!check_credentials("", "", ""));
}

#[test]
fn collection_paths_end_with_a_separator() {
    assert!(ends_with_separator("/"));
    assert!(ends_with_separator("/dir/"));
    assert!(!ends_with_separator(""));
    assert!(!ends_with_separator("/a.txt"));
    assert!(!ends_with_separator("/dir/é"));
}

#[test]
fn numbers_are_written_in_decimal() {
    assert_eq!(decimal_text(0), "0");
    assert_eq!(decimal_text(9), "9");
    assert_eq!(decimal_text(10), "10");
    assert_eq!(decimal_text(4294967296), "4294967296");
    assert_eq!(decimal_text(18446744073709551615), "18446744073709551615");
}

#[test]
fn mapping_keeps_insertion_order_and_one_entry_per_key() {
    let mut map = StringMap::new();
    map.insert("b".to_string(), "1".to_string());
    map.insert("a".to_string(), "2".to_string());
    map.insert("b".to_string(), "3".to_string());
    assert_eq!(map.len(), 2);
    assert_eq!(
        map.entries,
        vec![
            ("b".to_string(), "3".to_string()),
            ("a".to_string(), "2".to_string())
        ]
    );
    assert_eq!(map.get("a"), Some(&"2".to_string()));
    assert_eq!(map.get("c"), None);
    assert!(map.contains_key("b"));
    assert!(!map.contains_key("B"));
    let collected = StringMap::from_pairs(vec![
        ("x".to_string(), "1".to_string()),
        ("y".to_string(), "2".to_string()),
        ("x".to_string(), "3".to_string()),
    ]);
    assert_eq!(
        collected.entries,
        vec![
            ("x".to_string(), "3".to_string()),
            ("y".to_string(), "2".to_string())
        ]
    );
}
