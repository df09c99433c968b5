use firmware_catalog::artifact::{is_artifact_char, is_valid_artifact_id, CONTENT_TYPE};

#[test]
fn plain_file_names_are_valid() {
    assert!(is_valid_artifact_id("a"));
    assert!(is_valid_artifact_id("firmware-1.2.0.bin"));
    assert!(is_valid_artifact_id("FW_2024.img"));
    assert!(is_valid_artifact_id("0"));
}

#[test]
fn the_empty_name_is_invalid() {
    assert!(!is_valid_artifact_id(""));
}

#[test]
fn names_that_leave_the_store_are_invalid() {
    assert!(!is_valid_artifact_id(".."));
    assert!(!is_valid_artifact_id("."));
    assert!(!is_valid_artifact_id("../catalog.json"));
    assert!(!is_valid_artifact_id("/etc/passwd"));
    assert!(!is_valid_artifact_id("a/b"));
    assert!(!is_valid_artifact_id("a\\b"));
    assert!(!is_valid_artifact_id(".hidden"));
}

#[test]
fn names_with_other_characters_are_invalid() {
    assert!(!is_valid_artifact_id("a b"));
    assert!(!is_valid_artifact_id("a\0"));
    assert!(!is_valid_artifact_id("a:b"));
    assert!(!is_valid_artifact_id("caf\u{e9}"));
    assert!(!is_valid_artifact_id("a%2fb"));
}

#[test]
fn a_dot_is_allowed_after_the_first_character() {
    assert!(is_valid_artifact_id("a.b"));
    assert!(is_valid_artifact_id("a..b"));
    assert!(is_valid_artifact_id("a."));
}

#[test]
fn the_allowed_characters_are_letters_digits_and_three_marks() {
    for c in ['a', 'm', 'z', 'A', 'M', 'Z', '0', '5', '9', '.', '_', '-'] {
        assert!(is_artifact_char(c));
    }
    for c in ['/', '\\', ' ', '`', '{', '@', '[', ':', '+', '~', '\u{e9}', '\0'] {
        assert!(!is_artifact_char(c));
    }
}

#[test]
fn the_content_type_is_fixed() {
    assert_eq!(CONTENT_TYPE, "binary/octet-stream");
}
