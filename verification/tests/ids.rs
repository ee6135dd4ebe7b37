use gitobj::error::StoreError;
use gitobj::ids::{object_path_for, validate_id};

#[test]
fn well_formed_identifier_splits_two_and_thirty_eight() {
    let (dir, file) = object_path_for("a94a8fe5ccb19ba61c4c0873d391e987982fbbd3").unwrap();
    assert_eq!(dir, "a9");
    assert_eq!(file, "4a8fe5ccb19ba61c4c0873d391e987982fbbd3");
    assert_eq!(dir.len(), 2);
    assert_eq!(file.len(), 38);
}

#[test]
fn malformed_identifiers_are_rejected() {
    assert_eq!(
        object_path_for("").unwrap_err(),
        StoreError::InvalidIdentifier
    );
    assert_eq!(
        object_path_for("a94a8fe5").unwrap_err(),
        StoreError::InvalidIdentifier
    );
    assert_eq!(
        object_path_for("a94a8fe5ccb19ba61c4c0873d391e987982fbbd3f").unwrap_err(),
        StoreError::InvalidIdentifier
    );
    assert_eq!(
        object_path_for("A94A8FE5CCB19BA61C4C0873D391E987982FBBD3").unwrap_err(),
        StoreError::InvalidIdentifier
    );
    assert_eq!(
        object_path_for("a94a8fe5ccb19ba61c4c0873d391e987982fbbdg").unwrap_err(),
        StoreError::InvalidIdentifier
    );
}

#[test]
fn identifier_syntax_check() {
    assert!(validate_id("3b18e512dba79e4c8300dd08aeb37f8e728b8dad"));
    assert!(!validate_id("3b18e512dba79e4c8300dd08aeb37f8e728b8da"));
    assert!(!validate_id("3b18e512dba79e4c8300dd08aeb37f8e728b8daD"));
    assert!(!validate_id("3b18e512dba79e4c8300dd08aeb37f8e728b8da "));
}
