use akashi::text::{copy_option, decimal, join2, join3, join_path, same_option, same_text};
use std::path::Path;

#[test]
fn paths_join_as_the_system_joins_them() {
    for base in ["", "data", "data/", "/var/lib/akashi", "/", "データ"] {
        for part in ["cas", "ots", "/etc", "", "a/b", "証/x"] {
            let expected = Path::new(base).join(part);
            assert_eq!(Path::new(&join_path(base, part)), expected.as_path());
            assert_eq!(join_path(base, part), expected.to_str().unwrap());
        }
    }
}

#[test]
fn absolute_part_stands_for_itself() {
    assert_eq!(join_path("data", "/etc/x"), "/etc/x");
    assert_eq!(join_path("data", "cas"), "data/cas");
}

#[test]
fn decimal_numbers() {
    for n in [0usize, 7, 9, 10, 42, 100, 1009, 65535, usize::MAX] {
        assert_eq!(decimal(n), n.to_string());
    }
}

#[test]
fn equal_and_unequal_texts() {
    assert!(same_text("", ""));
    assert!(same_text("明かし", "明かし"));
    assert!(!same_text("abc", "abd"));
    assert!(!same_text("abc", "ab"));
    assert!(!same_text("é", "e"));
}

#[test]
fn optional_texts() {
    let a = Some("x".to_string());
    let b = Some("y".to_string());
    assert!(same_option(&a, &Some("x".to_string())));
    assert!(!same_option(&a, &b));
    assert!(!same_option(&a, &None));
    assert!(!same_option(&None, &b));
    assert!(same_option(&None, &None));
    assert_eq!(copy_option(&a), a);
    assert_eq!(copy_option(&None), None);
}

#[test]
fn joined_texts() {
    assert_eq!(join2("sha256:", "ab"), "sha256:ab");
    assert_eq!(join3("[", "x", "]"), "[x]");
}
