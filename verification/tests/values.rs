use webdav_core::values::{Depth, Overwrite, Range};

#[test]
fn depth_from_header_values() {
    assert_eq!(Depth::from("0".to_string()), Depth::Zero);
    assert_eq!(Depth::from("1".to_string()), Depth::One);
    assert_eq!(Depth::from("INFINITY".to_string()), Depth::Infinity);
    assert_eq!(Depth::from("infinity".to_string()), Depth::Infinity);
    assert_eq!(Depth::from("".to_string()), Depth::Infinity);
    assert_eq!(Depth::from("01".to_string()), Depth::Infinity);
    assert_eq!(Depth::default(), Depth::Infinity);
}

#[test]
fn overwrite_from_header_values() {
    assert_eq!(Overwrite::from("F".to_string()), Overwrite::False);
    assert_eq!(Overwrite::from("".to_string()), Overwrite::True);
    assert_eq!(Overwrite::from("T".to_string()), Overwrite::True);
    assert_eq!(Overwrite::from("X".to_string()), Overwrite::True);
    assert_eq!(Overwrite::from("f".to_string()), Overwrite::True);
    assert_eq!(Overwrite::default(), Overwrite::True);
}

fn none() -> Range {
    Range {
        start: None,
        end: None,
    }
}

#[test]
fn range_from_two_numbers() {
    assert_eq!(
        Range::from("10-19".to_string()),
        Range {
            start: Some(10),
            end: Some(19)
        }
    );
    assert_eq!(
        Range::from("+5-009".to_string()),
        Range {
            start: Some(5),
            end: Some(9)
        }
    );
    assert_eq!(
        Range::from("0-4294967295".to_string()),
        Range {
            start: Some(0),
            end: Some(4294967295)
        }
    );
}

#[test]
fn range_from_malformed_text_is_empty() {
    assert_eq!(Range::from("".to_string()), none());
    assert_eq!(Range::from("5".to_string()), none());
    assert_eq!(Range::from("5-".to_string()), none());
    assert_eq!(Range::from("-9".to_string()), none());
    assert_eq!(Range::from("1-2-3".to_string()), none());
    assert_eq!(Range::from("a-b".to_string()), none());
    assert_eq!(Range::from("1 - 2".to_string()), none());
    assert_eq!(Range::from("0-4294967296".to_string()), none());
    assert_eq!(Range::from("0-99999999999999999999999".to_string()), none());
    assert_eq!(Range::from("+-1".to_string()), none());
}

#[test]
fn range_from_several_ranges_is_empty() {
    assert_eq!(Range::from("0-1;2-3".to_string()), none());
    assert_eq!(Range::from("5-9;".to_string()), none());
}

#[test]
fn range_from_absent_text_is_empty() {
    assert_eq!(Range::from(None), none());
    assert_eq!(
        Range::from(Some("5-9".to_string())),
        Range {
            start: Some(5),
            end: Some(9)
        }
    );
}
