use winreg_io_rs::error::Error;
use winreg_io_rs::reader::{KeyImport, Route, Scope, ValueWrite};
use winreg_io_rs::types::{Hkey, RegType, RegValue, ValueName};

fn key_import() -> KeyImport {
    KeyImport {
        path: "HKEY_USERS\\a\\b".to_string(),
        route: Route {
            hkey: Hkey::HKEY_USERS,
            segments: vec!["a".to_string(), "b".to_string()],
            scope: Scope::Direct,
        },
        writes: vec![
            ValueWrite {
                name: String::new(),
                value: RegValue {
                    bytes: vec![1],
                    vtype: RegType::REG_BINARY,
                },
            },
            ValueWrite {
                name: "named".to_string(),
                value: RegValue {
                    bytes: vec![2],
                    vtype: RegType::REG_BINARY,
                },
            },
        ],
    }
}

#[test]
fn a_root_that_is_not_found_is_named_in_the_message() {
    let error = Error::RootNotFound {
        path: "HKEY_NOWHERE\\a".to_string(),
    };
    assert_eq!(error.message(), "root not found: HKEY_NOWHERE\\a");
}

#[test]
fn a_key_that_is_not_found_is_named_in_the_message() {
    let error = Error::SegmentNotFound {
        path: "HKEY_USERS\\a\\b".to_string(),
        segment: "b".to_string(),
    };
    assert_eq!(error.message(), "key not found: HKEY_USERS\\a\\b, at: b");
}

#[test]
fn an_unsupported_value_is_named_in_the_message() {
    let error = Error::UnsupportedValueType {
        path: "HKEY_USERS\\a".to_string(),
        name: ValueName::Named("link-test".to_string()),
    };
    assert_eq!(
        error.message(),
        "unsupported value type: HKEY_USERS\\a, value: link-test"
    );
    let error = Error::UnsupportedValueType {
        path: "HKEY_USERS\\a".to_string(),
        name: ValueName::Default,
    };
    assert_eq!(
        error.message(),
        "unsupported value type: HKEY_USERS\\a, value: @"
    );
}

#[test]
fn a_refused_write_is_named_in_the_message_with_its_cause() {
    let error = Error::NativeIoError {
        path: "HKEY_USERS\\a".to_string(),
        name: ValueName::Named("x".to_string()),
        message: "Access is denied.".to_string(),
    };
    assert_eq!(
        error.message(),
        "write refused: HKEY_USERS\\a, value: x, cause: Access is denied."
    );
}

#[test]
fn a_malformed_document_is_named_in_the_message() {
    let error = Error::MalformedDocument {
        message: "Unknown format: REGEDIT9".to_string(),
    };
    assert_eq!(
        error.message(),
        "malformed document: Unknown format: REGEDIT9"
    );
}

#[test]
fn a_name_that_does_not_open_gives_segment_not_found() {
    let key = key_import();
    assert_eq!(
        key.open_refused(0),
        Error::SegmentNotFound {
            path: "HKEY_USERS\\a\\b".to_string(),
            segment: "a".to_string(),
        }
    );
    assert_eq!(
        key.open_refused(1),
        Error::SegmentNotFound {
            path: "HKEY_USERS\\a\\b".to_string(),
            segment: "b".to_string(),
        }
    );
    assert_eq!(
        key.open_refused(2),
        Error::SegmentNotFound {
            path: "HKEY_USERS\\a\\b".to_string(),
            segment: String::new(),
        }
    );
}

#[test]
fn a_write_that_is_refused_gives_native_io_error() {
    let key = key_import();
    assert_eq!(
        key.write_refused(0, "denied".to_string()),
        Error::NativeIoError {
            path: "HKEY_USERS\\a\\b".to_string(),
            name: ValueName::Default,
            message: "denied".to_string(),
        }
    );
    assert_eq!(
        key.write_refused(1, "aborted".to_string()),
        Error::NativeIoError {
            path: "HKEY_USERS\\a\\b".to_string(),
            name: ValueName::Named("named".to_string()),
            message: "aborted".to_string(),
        }
    );
    assert_eq!(
        key.write_refused(9, "late".to_string()),
        Error::NativeIoError {
            path: "HKEY_USERS\\a\\b".to_string(),
            name: ValueName::Default,
            message: "late".to_string(),
        }
    );
}

#[test]
fn errors_are_copied_whole() {
    let errors = vec![
        Error::RootNotFound {
            path: "p".to_string(),
        },
        Error::SegmentNotFound {
            path: "p".to_string(),
            segment: "s".to_string(),
        },
        Error::UnsupportedValueType {
            path: "p".to_string(),
            name: ValueName::Default,
        },
        Error::NativeIoError {
            path: "p".to_string(),
            name: ValueName::Named("n".to_string()),
            message: "m".to_string(),
        },
        Error::MalformedDocument {
            message: "m".to_string(),
        },
    ];
    for error in errors {
        assert_eq!(error.clone(), error);
    }
}
