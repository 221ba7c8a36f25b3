use winreg_io_rs::reader::RegReader;
use winreg_io_rs::types::{KeyRecord, Kind, RegType, Value, ValueName};
use winreg_io_rs::writer::RegWriter;

fn named(name: &str) -> ValueName {
    ValueName::Named(name.to_string())
}

fn record(path: &str, values: Vec<(ValueName, Value)>) -> KeyRecord {
    KeyRecord {
        path: path.to_string(),
        values,
    }
}

fn sorted(mut keys: Vec<KeyRecord>) -> Vec<KeyRecord> {
    keys.sort_by(|a, b| a.path.cmp(&b.path));
    keys
}

fn tags() -> Vec<(Kind, regashii::Kind)> {
    vec![
        (Kind::Untyped, regashii::Kind::None),
        (Kind::Sz, regashii::Kind::Sz),
        (Kind::ExpandSz, regashii::Kind::ExpandSz),
        (Kind::Binary, regashii::Kind::Binary),
        (Kind::Dword, regashii::Kind::Dword),
        (Kind::DwordBigEndian, regashii::Kind::DwordBigEndian),
        (Kind::Link, regashii::Kind::Link),
        (Kind::MultiSz, regashii::Kind::MultiSz),
        (Kind::ResourceList, regashii::Kind::ResourceList),
        (Kind::FullResourceList, regashii::Kind::FullResourceList),
        (
            Kind::ResourceRequirementsList,
            regashii::Kind::ResourceRequirementsList,
        ),
        (Kind::Qword, regashii::Kind::Qword),
        (Kind::Unknown(0), regashii::Kind::Unknown(0)),
        (Kind::Unknown(3), regashii::Kind::Unknown(3)),
        (Kind::Unknown(11), regashii::Kind::Unknown(11)),
        (Kind::Unknown(12), regashii::Kind::Unknown(12)),
        (Kind::Unknown(255), regashii::Kind::Unknown(255)),
    ]
}

#[test]
fn a_reader_takes_every_tag_as_it_is() {
    for (kind, stored) in tags() {
        let registry = regashii::Registry::new(regashii::Format::Regedit5).with(
            "HKEY_USERS\\k",
            regashii::Key::new().with(
                "raw",
                regashii::Value::Hex {
                    kind: stored,
                    bytes: vec![1, 2],
                },
            ),
        );
        let reader = RegReader::from_registry(&registry);
        assert_eq!(
            reader.keys(),
            &vec![record(
                "HKEY_USERS\\k",
                vec![(
                    named("raw"),
                    Value::Hex {
                        kind,
                        bytes: vec![1, 2]
                    }
                )]
            )]
        );
    }
}

#[test]
fn a_writer_files_every_tag_as_it_is() {
    for (kind, stored) in tags() {
        let registry = RegWriter::new()
            .with_key(
                "HKEY_USERS\\k".to_string(),
                vec![(
                    ValueName::Default,
                    Value::Hex {
                        kind,
                        bytes: vec![7],
                    },
                )],
            )
            .to_registry();
        let key = registry.keys().values().next().expect("the key");
        assert_eq!(
            key.values().get(&regashii::ValueName::Default),
            Some(&regashii::Value::Hex {
                kind: stored,
                bytes: vec![7]
            })
        );
    }
}

#[test]
fn an_unknown_tag_with_the_number_of_a_known_one_is_not_written() {
    let registry = regashii::Registry::new(regashii::Format::Regedit5).with(
        "HKEY_USERS\\k",
        regashii::Key::new().with(
            "odd",
            regashii::Value::Hex {
                kind: regashii::Kind::Unknown(3),
                bytes: vec![1],
            },
        ),
    );
    let plan = RegReader::from_registry(&registry).load_all_immediate();
    assert_eq!(
        plan.failure,
        Some(winreg_io_rs::error::Error::UnsupportedValueType {
            path: "HKEY_USERS\\k".to_string(),
            name: named("odd"),
        })
    );
    assert!(plan.keys[0].writes.is_empty());
}

#[test]
fn a_reader_takes_every_key_and_value_of_a_registry() {
    let registry = regashii::Registry::new(regashii::Format::Regedit5)
        .with(
            "HKEY_CLASSES_ROOT\\winreg-io-rs\\test",
            regashii::Key::new()
                .with("dword-test", regashii::Value::Dword(1))
                .with("sz-test", regashii::Value::Sz("test".to_string()))
                .with(regashii::ValueName::Default, regashii::Value::Qword(9)),
        )
        .with("HKEY_USERS\\empty", regashii::Key::new());
    let reader = RegReader::from_registry(&registry);
    let mut keys: Vec<KeyRecord> = Vec::new();
    for key in reader.keys() {
        let mut values = key.values.clone();
        values.sort_by(|a, b| format!("{:?}", a.0).cmp(&format!("{:?}", b.0)));
        keys.push(record(&key.path, values));
    }
    assert_eq!(
        sorted(keys),
        vec![
            record(
                "HKEY_CLASSES_ROOT\\winreg-io-rs\\test",
                vec![
                    (ValueName::Default, Value::Qword(9)),
                    (named("dword-test"), Value::Dword(1)),
                    (named("sz-test"), Value::Sz("test".to_string())),
                ]
            ),
            record("HKEY_USERS\\empty", vec![]),
        ]
    );
}

#[test]
fn a_reader_takes_each_kind_of_value_as_it_is() {
    let values = vec![
        ("a", regashii::Value::Delete, Value::Delete),
        (
            "b",
            regashii::Value::Sz("s".to_string()),
            Value::Sz("s".to_string()),
        ),
        (
            "c",
            regashii::Value::ExpandSz("%e%".to_string()),
            Value::ExpandSz("%e%".to_string()),
        ),
        (
            "d",
            regashii::Value::Binary(vec![1, 2]),
            Value::Binary(vec![1, 2]),
        ),
        ("e", regashii::Value::Dword(5), Value::Dword(5)),
        (
            "f",
            regashii::Value::DwordBigEndian(6),
            Value::DwordBigEndian(6),
        ),
        (
            "g",
            regashii::Value::MultiSz(vec!["x".to_string(), "y".to_string()]),
            Value::MultiSz(vec!["x".to_string(), "y".to_string()]),
        ),
        ("h", regashii::Value::Qword(8), Value::Qword(8)),
        (
            "i",
            regashii::Value::Hex {
                kind: regashii::Kind::Link,
                bytes: vec![3],
            },
            Value::Hex {
                kind: Kind::Link,
                bytes: vec![3],
            },
        ),
        (
            "j",
            regashii::Value::Hex {
                kind: regashii::Kind::Unknown(99),
                bytes: vec![],
            },
            Value::Hex {
                kind: Kind::Unknown(99),
                bytes: vec![],
            },
        ),
    ];
    for (name, stored, expected) in values {
        let registry = regashii::Registry::new(regashii::Format::Regedit5)
            .with("HKEY_USERS\\k", regashii::Key::new().with(name, stored));
        let reader = RegReader::from_registry(&registry);
        assert_eq!(
            reader.keys(),
            &vec![record("HKEY_USERS\\k", vec![(named(name), expected)])]
        );
    }
}

#[test]
fn a_reader_of_a_parsed_document_plans_its_writes() {
    let text = "Windows Registry Editor Version 5.00\r\n\r\n\
                [HKEY_CLASSES_ROOT\\winreg-io-rs\\test]\r\n\
                \"dword-test\"=dword:00000001\r\n";
    let registry = regashii::Registry::deserialize(text).expect("a document");
    let plan = RegReader::from_registry(&registry).load_all_transacted();
    assert_eq!(plan.failure, None);
    assert_eq!(plan.keys.len(), 1);
    assert_eq!(plan.keys[0].path, "HKEY_CLASSES_ROOT\\winreg-io-rs\\test");
    assert_eq!(plan.keys[0].route.segments, vec!["winreg-io-rs", "test"]);
    assert_eq!(plan.keys[0].writes.len(), 1);
    assert_eq!(plan.keys[0].writes[0].name, "dword-test");
    assert_eq!(plan.keys[0].writes[0].value.vtype, RegType::REG_DWORD);
    assert_eq!(plan.keys[0].writes[0].value.bytes, vec![1, 0, 0, 0]);
}

#[test]
fn a_registry_of_an_empty_writer_is_empty() {
    let registry = RegWriter::new().to_registry();
    assert!(registry.keys().is_empty());
    assert_eq!(registry.format(), regashii::Format::Regedit5);
}

#[test]
fn a_registry_holds_the_keys_of_the_writer() {
    let writer = RegWriter::new()
        .with_key(
            "HKEY_CURRENT_USER\\Software\\Demo".to_string(),
            vec![
                (named("top"), Value::Dword(1)),
                (ValueName::Default, Value::Sz("hello".to_string())),
            ],
        )
        .with_key(
            "HKEY_CURRENT_USER\\Software\\Demo\\sub1".to_string(),
            vec![(
                named("raw"),
                Value::Hex {
                    kind: Kind::Link,
                    bytes: vec![1, 2],
                },
            )],
        );
    let registry = writer.to_registry();
    let expected = regashii::Registry::new(regashii::Format::Regedit5)
        .with(
            "HKEY_CURRENT_USER\\Software\\Demo",
            regashii::Key::new()
                .with("top", regashii::Value::Dword(1))
                .with(
                    regashii::ValueName::Default,
                    regashii::Value::Sz("hello".to_string()),
                ),
        )
        .with(
            "HKEY_CURRENT_USER\\Software\\Demo\\sub1",
            regashii::Key::new().with(
                "raw",
                regashii::Value::Hex {
                    kind: regashii::Kind::Link,
                    bytes: vec![1, 2],
                },
            ),
        );
    assert_eq!(registry, expected);
    assert_eq!(registry.keys().len(), 2);
}

#[test]
fn a_registry_serializes_the_keys_of_the_writer() {
    let registry = RegWriter::new()
        .with_key(
            "HKEY_CLASSES_ROOT\\winreg-io-rs\\test".to_string(),
            vec![(named("dword-test"), Value::Dword(1))],
        )
        .to_registry();
    let text = registry.serialize();
    assert!(text.starts_with("Windows Registry Editor Version 5.00"));
    assert!(text.contains("[HKEY_CLASSES_ROOT\\winreg-io-rs\\test]"));
    assert!(text.contains("\"dword-test\"=dword:00000001"));
}

#[test]
fn what_a_writer_files_a_reader_takes_out_again() {
    let keys = vec![
        record(
            "HKEY_USERS\\a",
            vec![
                (ValueName::Default, Value::Binary(vec![9])),
                (named("list"), Value::MultiSz(vec!["x".to_string()])),
                (named("number"), Value::Qword(3)),
            ],
        ),
        record("HKEY_USERS\\a\\b", vec![(named("text"), Value::ExpandSz("%T%".to_string()))]),
        record("HKEY_USERS\\c", vec![]),
    ];
    let mut writer = RegWriter::new();
    for key in &keys {
        writer = writer.with_key(key.path.clone(), key.values.clone());
    }
    let reader = RegReader::from_registry(&writer.to_registry());
    let mut found: Vec<KeyRecord> = Vec::new();
    for key in reader.keys() {
        let mut values = key.values.clone();
        values.sort_by(|a, b| format!("{:?}", a.0).cmp(&format!("{:?}", b.0)));
        found.push(record(&key.path, values));
    }
    assert_eq!(sorted(found), keys);
}

#[test]
fn a_registry_keeps_an_unknown_tag_with_its_number() {
    let registry = RegWriter::new()
        .with_key(
            "HKEY_USERS\\k".to_string(),
            vec![(
                named("odd"),
                Value::Hex {
                    kind: Kind::Unknown(3),
                    bytes: vec![1],
                },
            )],
        )
        .to_registry();
    let reader = RegReader::from_registry(&registry);
    assert_eq!(
        reader.keys()[0].values,
        vec![(
            named("odd"),
            Value::Hex {
                kind: Kind::Unknown(3),
                bytes: vec![1],
            }
        )]
    );
}

#[test]
fn names_that_differ_in_case_alone_meet_in_the_registry() {
    let registry = RegWriter::new()
        .with_key(
            "HKEY_USERS\\Key".to_string(),
            vec![(named("Name"), Value::Dword(1)), (named("NAME"), Value::Dword(2))],
        )
        .with_key("HKEY_USERS\\KEY".to_string(), vec![(named("other"), Value::Dword(3))])
        .to_registry();
    assert_eq!(registry.keys().len(), 1);
    let (name, key) = registry.keys().iter().next().unwrap();
    assert_eq!(name.raw(), "HKEY_USERS\\Key");
    assert_eq!(key.values().len(), 2);
    assert_eq!(
        key.values().get(&regashii::ValueName::named("Name")),
        Some(&regashii::Value::Dword(2))
    );
}

fn writer_of(keys: Vec<KeyRecord>) -> RegWriter {
    let mut writer = RegWriter::new();
    for key in keys {
        writer = writer.with_key(key.path, key.values);
    }
    writer
}

#[test]
fn keys_with_tidy_paths_and_names_of_their_own_stay_apart() {
    assert!(RegWriter::new().is_apart());
    assert!(writer_of(vec![
        record(
            "HKEY_CURRENT_USER",
            vec![
                (ValueName::Default, Value::Dword(1)),
                (named("a"), Value::Dword(2)),
                (named("b"), Value::Dword(3)),
            ]
        ),
        record("HKEY_USERS", vec![(named("a"), Value::Dword(4))]),
        record("HKEY_USERS\\sub", vec![]),
        record("", vec![]),
    ])
    .is_apart());
}

#[test]
fn paths_that_differ_in_case_alone_do_not_stay_apart() {
    assert!(!writer_of(vec![
        record("HKEY_USERS\\Key", vec![]),
        record("HKEY_USERS\\KEY", vec![])
    ])
    .is_apart());
    assert!(!writer_of(vec![
        record("a", vec![]),
        record("b", vec![]),
        record("a", vec![])
    ])
    .is_apart());
    assert!(!writer_of(vec![record("\u{c4}", vec![]), record("\u{e4}", vec![])]).is_apart());
}

#[test]
fn names_that_differ_in_case_alone_do_not_stay_apart() {
    assert!(!writer_of(vec![record(
        "k",
        vec![(named("Name"), Value::Dword(1)), (named("NAME"), Value::Dword(2))]
    )])
    .is_apart());
    assert!(!writer_of(vec![record(
        "k",
        vec![
            (ValueName::Default, Value::Dword(1)),
            (named("x"), Value::Dword(2)),
            (ValueName::Default, Value::Dword(3)),
        ]
    )])
    .is_apart());
    assert!(writer_of(vec![
        record("k", vec![(named("Name"), Value::Dword(1))]),
        record("l", vec![(named("NAME"), Value::Dword(2))]),
    ])
    .is_apart());
}

#[test]
fn paths_that_are_not_tidy_do_not_stay_apart() {
    assert!(!writer_of(vec![record("HKEY_USERS\\", vec![])]).is_apart());
    assert!(!writer_of(vec![record("\\", vec![])]).is_apart());
    assert!(!writer_of(vec![record("HKEY_USERS\\\\sub", vec![])]).is_apart());
    assert!(!writer_of(vec![record("a\\b\\\\", vec![])]).is_apart());
    assert!(writer_of(vec![record("\\a\\b", vec![])]).is_apart());
}

#[test]
fn keys_that_stay_apart_are_the_keys_of_the_registry() {
    let keys = vec![
        record("HKEY_CURRENT_USER", vec![(named("a"), Value::Dword(1))]),
        record("HKEY_USERS", vec![(named("A"), Value::Dword(2))]),
    ];
    let writer = writer_of(vec![
        record("HKEY_CURRENT_USER", vec![(named("a"), Value::Dword(1))]),
        record("HKEY_USERS", vec![(named("A"), Value::Dword(2))]),
    ]);
    assert!(writer.is_apart());
    let reader = RegReader::from_registry(&writer.to_registry());
    let found: Vec<KeyRecord> = reader
        .keys()
        .iter()
        .map(|key| record(&key.path, key.values.clone()))
        .collect();
    assert_eq!(sorted(found), keys);
}

