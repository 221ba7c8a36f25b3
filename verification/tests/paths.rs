use winreg_io_rs::error::Error;
use winreg_io_rs::reader::{
    keyname_to_regkey, keyname_to_regkey_transacted, resolve, Route, Scope,
};
use winreg_io_rs::text::{split, text_eq};
use winreg_io_rs::types::Hkey;

fn texts(items: &[&str]) -> Vec<String> {
    items.iter().map(|item| item.to_string()).collect()
}

#[test]
fn texts_are_equal_when_their_characters_are() {
    assert!(text_eq("", ""));
    assert!(text_eq("HKEY_USERS", "HKEY_USERS"));
    assert!(text_eq("é€", "é€"));
    assert!(!text_eq("a", ""));
    assert!(!text_eq("", "a"));
    assert!(!text_eq("HKEY_USERS", "HKEY_USERs"));
    assert!(!text_eq("abc", "abd"));
    assert!(!text_eq("abc", "abcd"));
}

#[test]
fn a_text_is_cut_at_every_separator() {
    assert_eq!(split("a\\b\\c", '\\'), texts(&["a", "b", "c"]));
    assert_eq!(split("abc", '\\'), texts(&["abc"]));
    assert_eq!(split("", '\\'), texts(&[""]));
    assert_eq!(split("\\", '\\'), texts(&["", ""]));
    assert_eq!(split("a\\", '\\'), texts(&["a", ""]));
    assert_eq!(split("\\a", '\\'), texts(&["", "a"]));
    assert_eq!(split("a\\\\b", '\\'), texts(&["a", "", "b"]));
    assert_eq!(split("é\\€", '\\'), texts(&["é", "€"]));
    assert_eq!(split("a,b", ','), texts(&["a", "b"]));
}

#[test]
fn cutting_agrees_with_the_standard_library() {
    for path in [
        "",
        "\\",
        "\\\\",
        "HKEY_CLASSES_ROOT",
        "HKEY_CLASSES_ROOT\\A\\B",
        "HKEY_LOCAL_MACHINE\\SOFTWARE\\Über\\名前\\",
        "\\leading\\and\\trailing\\",
    ] {
        let expected: Vec<String> = path.split('\\').map(|piece| piece.to_string()).collect();
        assert_eq!(split(path, '\\'), expected);
    }
}

#[test]
fn a_path_resolves_to_its_root_and_the_names_below() {
    assert_eq!(
        resolve("HKEY_CLASSES_ROOT\\A\\B", Scope::Direct),
        Ok(Route {
            hkey: Hkey::HKEY_CLASSES_ROOT,
            segments: texts(&["A", "B"]),
            scope: Scope::Direct,
        })
    );
    assert_eq!(
        resolve("HKEY_LOCAL_MACHINE\\SOFTWARE\\Some Vendor\\App", Scope::Transacted),
        Ok(Route {
            hkey: Hkey::HKEY_LOCAL_MACHINE,
            segments: texts(&["SOFTWARE", "Some Vendor", "App"]),
            scope: Scope::Transacted,
        })
    );
}

#[test]
fn a_path_of_a_root_alone_resolves_to_the_root() {
    assert_eq!(
        resolve("HKEY_CURRENT_USER", Scope::Direct),
        Ok(Route {
            hkey: Hkey::HKEY_CURRENT_USER,
            segments: vec![],
            scope: Scope::Direct,
        })
    );
}

#[test]
fn empty_pieces_of_a_path_are_names_to_open_too() {
    assert_eq!(
        resolve("HKEY_USERS\\", Scope::Direct),
        Ok(Route {
            hkey: Hkey::HKEY_USERS,
            segments: texts(&[""]),
            scope: Scope::Direct,
        })
    );
    assert_eq!(
        resolve("HKEY_USERS\\a\\\\b", Scope::Direct),
        Ok(Route {
            hkey: Hkey::HKEY_USERS,
            segments: texts(&["a", "", "b"]),
            scope: Scope::Direct,
        })
    );
}

#[test]
fn an_unknown_root_is_not_found() {
    for path in [
        "",
        "\\HKEY_CLASSES_ROOT",
        "HKEY_NOWHERE\\A",
        "hkey_classes_root\\A",
        "HKCR\\A",
        "A\\HKEY_CLASSES_ROOT",
    ] {
        assert_eq!(
            resolve(path, Scope::Direct),
            Err(Error::RootNotFound {
                path: path.to_string()
            })
        );
    }
}

#[test]
fn the_two_ways_of_opening_differ_in_scope_alone() {
    let direct = keyname_to_regkey("HKEY_CLASSES_ROOT\\winreg-io-rs\\test").unwrap();
    let transacted = keyname_to_regkey_transacted("HKEY_CLASSES_ROOT\\winreg-io-rs\\test").unwrap();
    assert_eq!(direct.scope, Scope::Direct);
    assert_eq!(transacted.scope, Scope::Transacted);
    assert_eq!(direct.hkey, transacted.hkey);
    assert_eq!(direct.segments, transacted.segments);
    assert_eq!(direct.segments, texts(&["winreg-io-rs", "test"]));
    assert_eq!(
        keyname_to_regkey("nowhere"),
        Err(Error::RootNotFound {
            path: "nowhere".to_string()
        })
    );
    assert_eq!(
        keyname_to_regkey_transacted("nowhere\\x"),
        Err(Error::RootNotFound {
            path: "nowhere\\x".to_string()
        })
    );
}
