use std::collections::{BTreeMap, BTreeSet};

use winreg_io_rs::error::Error;
use winreg_io_rs::packing::u8s_to_u32;
use winreg_io_rs::parsing::hkey_to_string;
use winreg_io_rs::reader::{
    key_writes, ImportPlan, KeyImport, RegReader, Route, Scope, ValueWrite,
};
use winreg_io_rs::types::{
    native_value_name, Hkey, KeyRecord, Kind, RegType, RegValue, Value, ValueName,
};

fn named(name: &str) -> ValueName {
    ValueName::Named(name.to_string())
}

fn record(path: &str, values: Vec<(ValueName, Value)>) -> KeyRecord {
    KeyRecord {
        path: path.to_string(),
        values,
    }
}

fn write(name: &str, bytes: Vec<u8>, vtype: RegType) -> ValueWrite {
    ValueWrite {
        name: name.to_string(),
        value: RegValue { bytes, vtype },
    }
}

fn route(hkey: Hkey, segments: &[&str], scope: Scope) -> Route {
    Route {
        hkey,
        segments: segments.iter().map(|s| s.to_string()).collect(),
        scope,
    }
}

/// A store in memory: the keys that are there, and the value in every slot.
struct Store {
    keys: BTreeSet<(String, Vec<String>)>,
    values: BTreeMap<(String, Vec<String>, String), RegValue>,
}

impl Store {
    fn with_keys(keys: &[(Hkey, &[&str])]) -> Store {
        let mut store = Store {
            keys: BTreeSet::new(),
            values: BTreeMap::new(),
        };
        for (hkey, names) in keys {
            let names: Vec<String> = names.iter().map(|n| n.to_string()).collect();
            for upto in 0..=names.len() {
                store
                    .keys
                    .insert((hkey_to_string(*hkey).to_string(), names[..upto].to_vec()));
            }
        }
        store
    }

    fn open(&self, key: &KeyImport) -> Result<(String, Vec<String>), Error> {
        let root = hkey_to_string(key.route.hkey).to_string();
        let mut names: Vec<String> = vec![];
        for segment in &key.route.segments {
            if !segment.is_empty() {
                names.push(segment.clone());
                if !self.keys.contains(&(root.clone(), names.clone())) {
                    return Err(Error::SegmentNotFound {
                        path: key.path.clone(),
                        segment: segment.clone(),
                    });
                }
            }
        }
        Ok((root, names))
    }

    fn carry_out(&mut self, plan: &ImportPlan) -> Result<(), Error> {
        for key in &plan.keys {
            let (root, names) = self.open(key)?;
            for write in &key.writes {
                self.values.insert(
                    (root.clone(), names.clone(), write.name.clone()),
                    write.value.clone(),
                );
            }
        }
        match &plan.failure {
            Some(failure) => Err(failure.clone()),
            None => Ok(()),
        }
    }

    fn value(&self, hkey: Hkey, names: &[&str], name: &str) -> Option<&RegValue> {
        self.values.get(&(
            hkey_to_string(hkey).to_string(),
            names.iter().map(|n| n.to_string()).collect(),
            name.to_string(),
        ))
    }
}

#[test]
fn a_dword_of_the_document_reaches_the_store_as_four_bytes() {
    let reader = RegReader::new(vec![record(
        "HKEY_CLASSES_ROOT\\winreg-io-rs\\test",
        vec![(named("dword-test"), Value::Dword(1))],
    )]);
    let plan = reader.load_all_transacted();
    assert_eq!(
        plan,
        ImportPlan {
            keys: vec![KeyImport {
                path: "HKEY_CLASSES_ROOT\\winreg-io-rs\\test".to_string(),
                route: route(
                    Hkey::HKEY_CLASSES_ROOT,
                    &["winreg-io-rs", "test"],
                    Scope::Transacted
                ),
                writes: vec![write("dword-test", vec![1, 0, 0, 0], RegType::REG_DWORD)],
            }],
            failure: None,
        }
    );
    let mut store = Store::with_keys(&[(Hkey::HKEY_CLASSES_ROOT, &["winreg-io-rs", "test"])]);
    assert_eq!(store.carry_out(&plan), Ok(()));
    let stored = store
        .value(Hkey::HKEY_CLASSES_ROOT, &["winreg-io-rs", "test"], "dword-test")
        .expect("the value that was written");
    assert_eq!(stored.vtype, RegType::REG_DWORD);
    assert_eq!(stored.bytes.len(), 4);
    assert_eq!(u8s_to_u32(stored.bytes.clone()), Ok(1));
}

#[test]
fn every_kind_of_value_is_written_in_order() {
    let reader = RegReader::new(vec![record(
        "HKEY_CLASSES_ROOT\\winreg-io-rs\\test",
        vec![
            (named("sz-test"), Value::Sz("test".to_string())),
            (named("dword-test"), Value::Dword(1)),
            (named("qword-test"), Value::Qword(1)),
            (named("binary-test"), Value::Binary(vec![1, 2, 3, 4, 5])),
            (
                named("multi-sz-test"),
                Value::MultiSz(vec!["test1".to_string(), "test2".to_string()]),
            ),
            (named("expand-sz-test"), Value::ExpandSz("%PATH%".to_string())),
            (named("be-test"), Value::DwordBigEndian(0x0403_0201)),
            (
                named("link-test"),
                Value::Hex {
                    kind: Kind::Link,
                    bytes: vec![b't', 0, b'e', 0],
                },
            ),
            (ValueName::Default, Value::Sz("default".to_string())),
        ],
    )]);
    let plan = reader.load_all_immediate();
    assert_eq!(plan.failure, None);
    assert_eq!(plan.keys.len(), 1);
    assert_eq!(
        plan.keys[0].route,
        route(
            Hkey::HKEY_CLASSES_ROOT,
            &["winreg-io-rs", "test"],
            Scope::Direct
        )
    );
    assert_eq!(
        plan.keys[0].writes,
        vec![
            write("sz-test", b"test".to_vec(), RegType::REG_SZ),
            write("dword-test", vec![1, 0, 0, 0], RegType::REG_DWORD),
            write("qword-test", vec![1, 0, 0, 0, 0, 0, 0, 0], RegType::REG_QWORD),
            write("binary-test", vec![1, 2, 3, 4, 5], RegType::REG_BINARY),
            write("multi-sz-test", b"test1test2".to_vec(), RegType::REG_MULTI_SZ),
            write("expand-sz-test", b"%PATH%".to_vec(), RegType::REG_EXPAND_SZ),
            write("be-test", vec![1, 2, 3, 4], RegType::REG_DWORD_BIG_ENDIAN),
            write("link-test", vec![b't', 0, b'e', 0], RegType::REG_LINK),
            write("", b"default".to_vec(), RegType::REG_SZ),
        ]
    );
}

#[test]
fn the_default_value_has_the_empty_name_in_the_store() {
    assert_eq!(native_value_name(&ValueName::Default), "");
    assert_eq!(native_value_name(&named("name")), "name");
    assert_eq!(native_value_name(&named("@")), "@");
}

#[test]
fn an_empty_document_has_an_empty_plan() {
    let plan = RegReader::new(vec![]).load_all_immediate();
    assert_eq!(
        plan,
        ImportPlan {
            keys: vec![],
            failure: None
        }
    );
}

#[test]
fn a_key_without_values_is_opened_all_the_same() {
    let plan = RegReader::new(vec![record("HKEY_USERS\\a", vec![])]).load_all_immediate();
    assert_eq!(plan.failure, None);
    assert_eq!(plan.keys.len(), 1);
    assert_eq!(plan.keys[0].route, route(Hkey::HKEY_USERS, &["a"], Scope::Direct));
    assert!(plan.keys[0].writes.is_empty());
}

#[test]
fn an_unknown_root_ends_the_plan_before_anything_is_opened() {
    let reader = RegReader::new(vec![record(
        "HKEY_NOWHERE\\a",
        vec![(named("x"), Value::Dword(1))],
    )]);
    let plan = reader.load_all_immediate();
    assert_eq!(
        plan,
        ImportPlan {
            keys: vec![],
            failure: Some(Error::RootNotFound {
                path: "HKEY_NOWHERE\\a".to_string()
            }),
        }
    );
}

#[test]
fn keys_before_an_unknown_root_stay_in_the_plan_and_keys_behind_do_not() {
    let reader = RegReader::new(vec![
        record("HKEY_USERS\\a", vec![(named("x"), Value::Dword(1))]),
        record("nowhere", vec![(named("y"), Value::Dword(2))]),
        record("HKEY_USERS\\b", vec![(named("z"), Value::Dword(3))]),
    ]);
    let plan = reader.load_all_transacted();
    assert_eq!(
        plan.failure,
        Some(Error::RootNotFound {
            path: "nowhere".to_string()
        })
    );
    assert_eq!(plan.keys.len(), 1);
    assert_eq!(plan.keys[0].path, "HKEY_USERS\\a");
    assert_eq!(
        plan.keys[0].writes,
        vec![write("x", vec![1, 0, 0, 0], RegType::REG_DWORD)]
    );
}

#[test]
fn a_value_without_a_raw_value_ends_the_plan_behind_the_writes_before_it() {
    let reader = RegReader::new(vec![
        record("HKEY_USERS\\a", vec![(named("x"), Value::Dword(1))]),
        record(
            "HKEY_USERS\\b",
            vec![
                (named("first"), Value::Dword(2)),
                (named("gone"), Value::Delete),
                (named("never"), Value::Dword(3)),
            ],
        ),
        record("HKEY_USERS\\c", vec![(named("z"), Value::Dword(4))]),
    ]);
    let plan = reader.load_all_immediate();
    assert_eq!(
        plan.failure,
        Some(Error::UnsupportedValueType {
            path: "HKEY_USERS\\b".to_string(),
            name: named("gone"),
        })
    );
    assert_eq!(plan.keys.len(), 2);
    assert_eq!(plan.keys[1].path, "HKEY_USERS\\b");
    assert_eq!(
        plan.keys[1].writes,
        vec![write("first", vec![2, 0, 0, 0], RegType::REG_DWORD)]
    );
}

#[test]
fn each_value_without_a_raw_value_is_named_in_the_error() {
    let cases = vec![
        (ValueName::Default, Value::Delete),
        (named("empty-list"), Value::MultiSz(vec![])),
        (
            named("untyped"),
            Value::Hex {
                kind: Kind::Untyped,
                bytes: vec![],
            },
        ),
        (
            named("unknown"),
            Value::Hex {
                kind: Kind::Unknown(77),
                bytes: vec![1],
            },
        ),
    ];
    for (name, value) in cases {
        let (writes, failure) = key_writes(&record("HKEY_USERS\\k", vec![(name.clone(), value)]));
        assert!(writes.is_empty());
        assert_eq!(
            failure,
            Some(Error::UnsupportedValueType {
                path: "HKEY_USERS\\k".to_string(),
                name,
            })
        );
    }
}

#[test]
fn a_key_that_is_not_there_stops_the_run_at_its_first_missing_name() {
    let reader = RegReader::new(vec![
        record("HKEY_USERS\\a", vec![(named("x"), Value::Dword(1))]),
        record("HKEY_USERS\\a\\missing\\deeper", vec![(named("y"), Value::Dword(2))]),
        record("HKEY_USERS\\a", vec![(named("z"), Value::Dword(3))]),
    ]);
    let plan = reader.load_all_immediate();
    assert_eq!(plan.failure, None);
    assert_eq!(plan.keys.len(), 3);
    let mut store = Store::with_keys(&[(Hkey::HKEY_USERS, &["a"])]);
    assert_eq!(
        store.carry_out(&plan),
        Err(Error::SegmentNotFound {
            path: "HKEY_USERS\\a\\missing\\deeper".to_string(),
            segment: "missing".to_string(),
        })
    );
    assert!(store.value(Hkey::HKEY_USERS, &["a"], "x").is_some());
    assert!(store.value(Hkey::HKEY_USERS, &["a"], "z").is_none());
}

#[test]
fn an_import_made_twice_leaves_what_an_import_made_once_leaves() {
    let reader = RegReader::new(vec![
        record(
            "HKEY_USERS\\a",
            vec![
                (named("x"), Value::Dword(1)),
                (named("y"), Value::Sz("one".to_string())),
            ],
        ),
        record("HKEY_USERS\\a\\b", vec![(ValueName::Default, Value::Qword(7))]),
        record(
            "HKEY_USERS\\a",
            vec![(named("x"), Value::Dword(2))],
        ),
    ]);
    let plan = reader.load_all_transacted();
    let mut store = Store::with_keys(&[(Hkey::HKEY_USERS, &["a", "b"])]);
    assert_eq!(store.carry_out(&plan), Ok(()));
    let once = store.values.clone();
    assert_eq!(store.carry_out(&plan), Ok(()));
    assert_eq!(store.values, once);
    assert_eq!(
        store.value(Hkey::HKEY_USERS, &["a"], "x"),
        Some(&RegValue {
            bytes: vec![2, 0, 0, 0],
            vtype: RegType::REG_DWORD
        })
    );
    assert_eq!(store.values.len(), 3);
}
