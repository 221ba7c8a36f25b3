use winreg_io_rs::error::Error;
use winreg_io_rs::types::{document_value_name, KeyRecord, RegType, RegValue, Value, ValueName};
use winreg_io_rs::walk::{Answer, ExportWalk, Listing, Progress};
use winreg_io_rs::writer::{key_entries, ChildEntry, KeySnapshot, RegWriter, ValueEntry};

fn named(name: &str) -> ValueName {
    ValueName::Named(name.to_string())
}

fn entry(name: &str, bytes: Vec<u8>, vtype: RegType) -> Option<ValueEntry> {
    Some(ValueEntry {
        name: name.to_string(),
        value: RegValue { bytes, vtype },
    })
}

fn dword(name: &str, value: u32) -> Option<ValueEntry> {
    entry(name, value.to_le_bytes().to_vec(), RegType::REG_DWORD)
}

fn key(values: Vec<Option<ValueEntry>>, children: Vec<ChildEntry>) -> KeySnapshot {
    KeySnapshot { values, children }
}

fn opened(name: &str, key: KeySnapshot) -> ChildEntry {
    ChildEntry::Opened {
        name: name.to_string(),
        key,
    }
}

fn unopened(name: &str) -> ChildEntry {
    ChildEntry::Unopened {
        name: name.to_string(),
    }
}

fn record(path: &str, values: Vec<(ValueName, Value)>) -> KeyRecord {
    KeyRecord {
        path: path.to_string(),
        values,
    }
}

fn listing(key: &KeySnapshot) -> Listing {
    Listing {
        values: key.values.clone(),
        children: key
            .children
            .iter()
            .map(|child| match child {
                ChildEntry::Unreadable => None,
                ChildEntry::Unopened { name } => Some(name.clone()),
                ChildEntry::Opened { name, .. } => Some(name.clone()),
            })
            .collect(),
    }
}

/// Exports a snapshot one visit at a time, as the holder of a live store
/// does: with one open key for every key on the stack of the walk.
fn visit_all(root: &KeySnapshot, name: &str) -> Result<RegWriter, Error> {
    let mut open: Vec<&KeySnapshot> = vec![root];
    let walk = ExportWalk::start(RegWriter::new(), name.to_string());
    let mut progress = walk.advance(Answer::Listed(listing(root)));
    loop {
        match progress {
            Progress::Visit {
                walk,
                depth,
                index,
                name,
            } => {
                assert!(depth < open.len());
                open.truncate(depth + 1);
                let answer = match &open[depth].children[index] {
                    ChildEntry::Opened { name: found, key } => {
                        assert_eq!(found, &name);
                        open.push(key);
                        Answer::Listed(listing(key))
                    }
                    ChildEntry::Unopened { name: found } => {
                        assert_eq!(found, &name);
                        Answer::Refused
                    }
                    ChildEntry::Unreadable => panic!("asked to visit an entry without a name"),
                };
                progress = walk.advance(answer);
            }
            Progress::Done(writer) => return Ok(writer),
            Progress::Failed(error) => return Err(error),
        }
    }
}

fn export_both_ways(root: &KeySnapshot, name: &str) -> Result<Vec<KeyRecord>, Error> {
    let at_once = RegWriter::new()
        .with_all_subkeys(root, name.to_string())
        .map(|writer| writer.into_keys());
    let by_visits = visit_all(root, name).map(|writer| writer.into_keys());
    assert_eq!(at_once, by_visits);
    at_once
}

fn three_keys() -> KeySnapshot {
    key(
        vec![dword("top", 1)],
        vec![opened(
            "sub1",
            key(
                vec![entry("text", b"hello".to_vec(), RegType::REG_SZ)],
                vec![opened(
                    "sub2",
                    key(
                        vec![entry("", vec![1, 2, 3], RegType::REG_BINARY)],
                        vec![],
                    ),
                )],
            ),
        )],
    )
}

#[test]
fn a_new_writer_has_no_keys() {
    assert!(RegWriter::new().keys().is_empty());
    assert_eq!(RegWriter::new().into_keys(), vec![]);
}

#[test]
fn with_key_adds_behind_the_keys_that_are_there() {
    let writer = RegWriter::new()
        .with_key("a".to_string(), vec![(named("x"), Value::Dword(1))])
        .with_key("b".to_string(), vec![]);
    assert_eq!(
        writer.into_keys(),
        vec![
            record("a", vec![(named("x"), Value::Dword(1))]),
            record("b", vec![]),
        ]
    );
}

#[test]
fn every_key_of_a_subtree_comes_out_at_its_path_with_its_value() {
    assert_eq!(
        export_both_ways(&three_keys(), "HKEY_CURRENT_USER\\Software\\Demo"),
        Ok(vec![
            record(
                "HKEY_CURRENT_USER\\Software\\Demo",
                vec![(named("top"), Value::Dword(1))]
            ),
            record(
                "HKEY_CURRENT_USER\\Software\\Demo\\sub1",
                vec![(named("text"), Value::Sz("hello".to_string()))]
            ),
            record(
                "HKEY_CURRENT_USER\\Software\\Demo\\sub1\\sub2",
                vec![(ValueName::Default, Value::Binary(vec![1, 2, 3]))]
            ),
        ])
    );
}

#[test]
fn an_export_adds_behind_the_keys_that_the_writer_has() {
    let writer = RegWriter::new().with_key("before".to_string(), vec![]);
    let keys = writer
        .with_all_subkeys(&three_keys(), "root".to_string())
        .unwrap()
        .into_keys();
    let paths: Vec<&str> = keys.iter().map(|key| key.path.as_str()).collect();
    assert_eq!(paths, vec!["before", "root", "root\\sub1", "root\\sub1\\sub2"]);
}

#[test]
fn a_key_without_values_and_children_comes_out_empty() {
    assert_eq!(
        export_both_ways(&key(vec![], vec![]), "root"),
        Ok(vec![record("root", vec![])])
    );
}

#[test]
fn children_come_out_in_the_order_of_the_enumeration_each_with_all_below_it() {
    let root = key(
        vec![],
        vec![
            opened(
                "b",
                key(
                    vec![],
                    vec![opened("x", key(vec![], vec![])), opened("a", key(vec![], vec![]))],
                ),
            ),
            opened("a", key(vec![], vec![opened("deep", key(vec![dword("v", 9)], vec![]))])),
            opened("c", key(vec![], vec![])),
        ],
    );
    let keys = export_both_ways(&root, "r").unwrap();
    let paths: Vec<&str> = keys.iter().map(|key| key.path.as_str()).collect();
    assert_eq!(
        paths,
        vec!["r", "r\\b", "r\\b\\x", "r\\b\\a", "r\\a", "r\\a\\deep", "r\\c"]
    );
    assert_eq!(keys[5].values, vec![(named("v"), Value::Dword(9))]);
}

#[test]
fn entries_that_the_enumeration_could_not_read_are_passed_over() {
    let root = key(
        vec![None, dword("kept", 5), None],
        vec![
            ChildEntry::Unreadable,
            opened("child", key(vec![None], vec![ChildEntry::Unreadable])),
            ChildEntry::Unreadable,
        ],
    );
    assert_eq!(
        export_both_ways(&root, "r"),
        Ok(vec![
            record("r", vec![(named("kept"), Value::Dword(5))]),
            record("r\\child", vec![]),
        ])
    );
}

#[test]
fn the_empty_name_among_the_children_is_the_key_itself_and_is_passed_over() {
    let root = key(
        vec![dword("v", 1)],
        vec![
            opened("", key(vec![dword("never", 2)], vec![])),
            unopened(""),
            opened("real", key(vec![], vec![])),
        ],
    );
    assert_eq!(
        export_both_ways(&root, "r"),
        Ok(vec![
            record("r", vec![(named("v"), Value::Dword(1))]),
            record("r\\real", vec![]),
        ])
    );
}

#[test]
fn a_value_without_a_type_is_left_out_of_the_key() {
    let root = key(
        vec![
            entry("none", vec![], RegType::REG_NONE),
            dword("kept", 3),
        ],
        vec![],
    );
    assert_eq!(
        export_both_ways(&root, "r"),
        Ok(vec![record("r", vec![(named("kept"), Value::Dword(3))])])
    );
}

#[test]
fn an_unsupported_value_ends_the_export_without_a_document() {
    for vtype in [
        RegType::REG_LINK,
        RegType::REG_MULTI_SZ,
        RegType::REG_RESOURCE_LIST,
        RegType::REG_FULL_RESOURCE_DESCRIPTOR,
        RegType::REG_RESOURCE_REQUIREMENTS_LIST,
    ] {
        let root = key(
            vec![dword("fine", 1)],
            vec![opened(
                "sub",
                key(
                    vec![dword("also-fine", 2), entry("bad", vec![0, 0], vtype)],
                    vec![opened("never", key(vec![], vec![]))],
                ),
            )],
        );
        assert_eq!(
            export_both_ways(&root, "r"),
            Err(Error::UnsupportedValueType {
                path: "r\\sub".to_string(),
                name: named("bad"),
            })
        );
    }
}

#[test]
fn a_text_that_the_buffer_does_not_spell_ends_the_export() {
    let root = key(vec![entry("broken", vec![0xff, 0xfe], RegType::REG_SZ)], vec![]);
    assert_eq!(
        export_both_ways(&root, "r"),
        Err(Error::UnsupportedValueType {
            path: "r".to_string(),
            name: named("broken"),
        })
    );
}

#[test]
fn a_key_with_nothing_but_values_without_a_type_comes_out_empty() {
    let root = key(
        vec![
            entry("a", vec![], RegType::REG_NONE),
            None,
            entry("", vec![1, 2], RegType::REG_NONE),
        ],
        vec![],
    );
    assert_eq!(export_both_ways(&root, "r"), Ok(vec![record("r", vec![])]));
}

#[test]
fn an_integer_of_another_width_ends_the_export() {
    let root = key(vec![entry("", vec![1, 2, 3], RegType::REG_DWORD)], vec![]);
    assert_eq!(
        export_both_ways(&root, "r"),
        Err(Error::UnsupportedValueType {
            path: "r".to_string(),
            name: ValueName::Default,
        })
    );
}

#[test]
fn a_child_that_does_not_open_ends_the_export() {
    let root = key(
        vec![],
        vec![
            opened("first", key(vec![], vec![])),
            opened("second", key(vec![], vec![unopened("locked")])),
            opened("third", key(vec![], vec![])),
        ],
    );
    assert_eq!(
        export_both_ways(&root, "r"),
        Err(Error::SegmentNotFound {
            path: "r\\second".to_string(),
            segment: "locked".to_string(),
        })
    );
}

#[test]
fn the_first_failure_in_the_order_of_the_walk_is_the_one_that_comes_out() {
    let root = key(
        vec![],
        vec![
            opened("a", key(vec![], vec![unopened("locked")])),
            opened("b", key(vec![entry("bad", vec![], RegType::REG_LINK)], vec![])),
        ],
    );
    assert_eq!(
        export_both_ways(&root, "r"),
        Err(Error::SegmentNotFound {
            path: "r\\a".to_string(),
            segment: "locked".to_string(),
        })
    );
    let root = key(
        vec![entry("bad", vec![], RegType::REG_LINK)],
        vec![unopened("locked")],
    );
    assert_eq!(
        export_both_ways(&root, "r"),
        Err(Error::UnsupportedValueType {
            path: "r".to_string(),
            name: named("bad"),
        })
    );
}

#[test]
fn names_of_the_store_become_names_of_the_document() {
    assert_eq!(document_value_name(&String::new()), ValueName::Default);
    assert_eq!(document_value_name(&"x".to_string()), named("x"));
    assert_eq!(document_value_name(&"@".to_string()), named("@"));
}

#[test]
fn values_of_one_key_are_converted_in_order() {
    let values = vec![
        entry("a", b"text".to_vec(), RegType::REG_SZ),
        None,
        entry("b", b"%X%".to_vec(), RegType::REG_EXPAND_SZ),
        entry("c", vec![7, 0, 0, 0, 0, 0, 0, 0], RegType::REG_QWORD),
        entry("d", vec![1, 2, 3, 4], RegType::REG_DWORD_BIG_ENDIAN),
    ];
    assert_eq!(
        key_entries(&"k".to_string(), &values),
        Ok(vec![
            (named("a"), Value::Sz("text".to_string())),
            (named("b"), Value::ExpandSz("%X%".to_string())),
            (named("c"), Value::Qword(7)),
            (named("d"), Value::DwordBigEndian(0x0403_0201)),
        ])
    );
}

#[test]
fn a_store_that_refuses_the_first_key_ends_the_walk() {
    let progress = ExportWalk::start(RegWriter::new(), "r".to_string()).advance(Answer::Refused);
    match progress {
        Progress::Failed(error) => assert_eq!(
            error,
            Error::SegmentNotFound {
                path: "r".to_string(),
                segment: String::new(),
            }
        ),
        _ => panic!("the walk went on"),
    }
}

#[test]
fn a_walk_asks_for_each_child_at_its_depth_and_position() {
    let root = Listing {
        values: vec![],
        children: vec![None, Some(String::new()), Some("a".to_string()), Some("b".to_string())],
    };
    let leaf = || Listing {
        values: vec![],
        children: vec![],
    };
    let walk = ExportWalk::start(RegWriter::new(), "r".to_string());
    let walk = match walk.advance(Answer::Listed(root)) {
        Progress::Visit {
            walk,
            depth,
            index,
            name,
        } => {
            assert_eq!((depth, index, name.as_str()), (0, 2, "a"));
            walk
        }
        _ => panic!("expected a visit"),
    };
    let inner = Listing {
        values: vec![],
        children: vec![Some("deep".to_string())],
    };
    let walk = match walk.advance(Answer::Listed(inner)) {
        Progress::Visit {
            walk,
            depth,
            index,
            name,
        } => {
            assert_eq!((depth, index, name.as_str()), (1, 0, "deep"));
            walk
        }
        _ => panic!("expected a visit"),
    };
    let walk = match walk.advance(Answer::Listed(leaf())) {
        Progress::Visit {
            walk,
            depth,
            index,
            name,
        } => {
            assert_eq!((depth, index, name.as_str()), (0, 3, "b"));
            walk
        }
        _ => panic!("expected a visit"),
    };
    match walk.advance(Answer::Listed(leaf())) {
        Progress::Done(writer) => {
            let keys = writer.into_keys();
            let paths: Vec<&str> = keys.iter().map(|key| key.path.as_str()).collect();
            assert_eq!(paths, vec!["r", "r\\a", "r\\a\\deep", "r\\b"]);
        }
        _ => panic!("expected the end"),
    }
}
