use simply_files::records::{FileAccess, FileLink};
use std::str::FromStr;

#[test]
fn access_converts_to_and_from_integers() {
    assert_eq!(FileAccess::from(0i64), FileAccess::Private);
    assert_eq!(FileAccess::from(1i64), FileAccess::Public);
    // any unknown stored value reads as Private
    assert_eq!(FileAccess::from(7i64), FileAccess::Private);
    assert_eq!(i64::from(FileAccess::Private), 0);
    assert_eq!(i64::from(FileAccess::Public), 1);
    assert_eq!(FileAccess::default(), FileAccess::Private);
    assert_eq!(FileAccess::Private.to_string(), "Private");
    assert_eq!(FileAccess::Public.to_string(), "Public");
}

#[test]
fn link_usability_needs_both_fields_absent() {
    let fresh = FileLink { id: "LLLLLLLLLL".to_string(), uploaded_file: None, uploaded_at: None, created_at: 0 };
    assert!(fresh.is_valid_to_use());
    let used = FileLink {
        id: "LLLLLLLLLL".to_string(),
        uploaded_file: Some("AAAAAAAAAA".to_string()),
        uploaded_at: Some(9),
        created_at: 0,
    };
    assert!(!used.is_valid_to_use());
    // a half-bound row grants nothing either
    let half = FileLink {
        id: "LLLLLLLLLL".to_string(),
        uploaded_file: Some("AAAAAAAAAA".to_string()),
        uploaded_at: None,
        created_at: 0,
    };
    assert!(!half.is_valid_to_use());
    let other_half = FileLink {
        id: "LLLLLLLLLL".to_string(),
        uploaded_file: None,
        uploaded_at: Some(9),
        created_at: 0,
    };
    assert!(!other_half.is_valid_to_use());
}

#[test]
fn access_parses_from_text() {
    assert_eq!(FileAccess::from_str(""), Ok(FileAccess::Private));
    assert_eq!(FileAccess::from_str("0"), Ok(FileAccess::Private));
    assert_eq!(FileAccess::from_str("1"), Ok(FileAccess::Public));
    assert_eq!(FileAccess::from_str("7"), Ok(FileAccess::Private));
    assert_eq!(FileAccess::from_str("Private"), Ok(FileAccess::Private));
    assert_eq!(FileAccess::from_str("PUBLIC"), Ok(FileAccess::Public));
    assert!(FileAccess::from_str("sideways").is_err());
}
