//! The values that move between a registry document and a registry store.
//!
//! A document holds typed values ([`Value`]) under value names
//! ([`ValueName`]); a store holds raw values ([`RegValue`]): a byte buffer
//! with a type tag ([`RegType`]). Every type here has a mathematical view
//! over `Seq`, and the contracts of the library are stated over the views.

use vstd::prelude::*;
use vstd::string::*;

verus! {

/// The type tag that a document gives to a value written as raw bytes.
#[derive(Debug, Clone, Copy, PartialEq, Eq, Structural)]
pub enum Kind {
    /// No defined type (tag 0).
    Untyped,
    Sz,
    ExpandSz,
    Binary,
    Dword,
    DwordBigEndian,
    Link,
    MultiSz,
    ResourceList,
    FullResourceList,
    ResourceRequirementsList,
    Qword,
    Unknown(u8),
}

/// The type tag of a value in the store.
#[allow(non_camel_case_types)]
#[derive(Debug, Clone, Copy, PartialEq, Eq, Structural)]
pub enum RegType {
    REG_NONE,
    REG_SZ,
    REG_EXPAND_SZ,
    REG_BINARY,
    REG_DWORD,
    REG_DWORD_BIG_ENDIAN,
    REG_LINK,
    REG_MULTI_SZ,
    REG_RESOURCE_LIST,
    REG_FULL_RESOURCE_DESCRIPTOR,
    REG_RESOURCE_REQUIREMENTS_LIST,
    REG_QWORD,
}

/// A predefined root of the store, under which every key path starts.
#[allow(non_camel_case_types)]
#[derive(Debug, Clone, Copy, PartialEq, Eq, Structural)]
pub enum Hkey {
    HKEY_CLASSES_ROOT,
    HKEY_CURRENT_CONFIG,
    HKEY_CURRENT_USER,
    HKEY_LOCAL_MACHINE,
    HKEY_USERS,
    HKEY_PERFORMANCE_DATA,
    HKEY_DYN_DATA,
    HKEY_CURRENT_USER_LOCAL_SETTINGS,
    HKEY_PERFORMANCE_TEXT,
    HKEY_PERFORMANCE_NLSTEXT,
}

/// A typed value of a document.
#[derive(Debug, PartialEq, Eq)]
pub enum Value {
    /// No value: the entry is to be removed, nothing is to be written.
    Delete,
    Sz(String),
    ExpandSz(String),
    Binary(Vec<u8>),
    Dword(u32),
    DwordBigEndian(u32),
    MultiSz(Vec<String>),
    Qword(u64),
    /// Raw bytes under an explicit type tag, for every type not modelled above.
    Hex { kind: Kind, bytes: Vec<u8> },
}

/// What a [`Value`] is, mathematically.
pub enum ValueView {
    Delete,
    Sz(Seq<char>),
    ExpandSz(Seq<char>),
    Binary(Seq<u8>),
    Dword(u32),
    DwordBigEndian(u32),
    MultiSz(Seq<Seq<char>>),
    Qword(u64),
    Hex { kind: Kind, bytes: Seq<u8> },
}

impl View for Value {
    type V = ValueView;

    open spec fn view(&self) -> ValueView {
        match self {
            Value::Delete => ValueView::Delete,
            Value::Sz(text) => ValueView::Sz(text@),
            Value::ExpandSz(text) => ValueView::ExpandSz(text@),
            Value::Binary(bytes) => ValueView::Binary(bytes@),
            Value::Dword(x) => ValueView::Dword(*x),
            Value::DwordBigEndian(x) => ValueView::DwordBigEndian(*x),
            Value::MultiSz(items) => ValueView::MultiSz(items.deep_view()),
            Value::Qword(x) => ValueView::Qword(*x),
            Value::Hex { kind, bytes } => ValueView::Hex { kind: *kind, bytes: bytes@ },
        }
    }
}

impl DeepView for Value {
    type V = ValueView;

    open spec fn deep_view(&self) -> ValueView {
        self@
    }
}

impl Clone for Value {
    fn clone(&self) -> (out: Self)
        ensures
            out@ == self@,
    {
        match self {
            Value::Delete => Value::Delete,
            Value::Sz(text) => Value::Sz(text.clone()),
            Value::ExpandSz(text) => Value::ExpandSz(text.clone()),
            Value::Binary(bytes) => Value::Binary(bytes.clone()),
            Value::Dword(x) => Value::Dword(*x),
            Value::DwordBigEndian(x) => Value::DwordBigEndian(*x),
            Value::MultiSz(items) => {
                let copy = items.clone();
                assert(copy.deep_view() == items.deep_view());
                Value::MultiSz(copy)
            },
            Value::Qword(x) => Value::Qword(*x),
            Value::Hex { kind, bytes } => Value::Hex { kind: *kind, bytes: bytes.clone() },
        }
    }
}

/// The name of a value within a key.
#[derive(Debug, PartialEq, Eq)]
pub enum ValueName {
    /// The unnamed default value of the key.
    Default,
    Named(String),
}

/// What a [`ValueName`] is, mathematically.
pub enum ValueNameView {
    Default,
    Named(Seq<char>),
}

impl View for ValueName {
    type V = ValueNameView;

    open spec fn view(&self) -> ValueNameView {
        match self {
            ValueName::Default => ValueNameView::Default,
            ValueName::Named(name) => ValueNameView::Named(name@),
        }
    }
}

impl DeepView for ValueName {
    type V = ValueNameView;

    open spec fn deep_view(&self) -> ValueNameView {
        self@
    }
}

impl Clone for ValueName {
    fn clone(&self) -> (out: Self)
        ensures
            out@ == self@,
    {
        match self {
            ValueName::Default => ValueName::Default,
            ValueName::Named(name) => ValueName::Named(name.clone()),
        }
    }
}

/// The name that the store has for a value name of a document: the empty
/// name for the default value, the name itself for every other.
pub open spec fn native_name(name: ValueNameView) -> Seq<char> {
    match name {
        ValueNameView::Default => Seq::empty(),
        ValueNameView::Named(text) => text,
    }
}

/// The name that a document has for a value name of the store: the default
/// value for the empty name, a named value for every other.
pub open spec fn document_name(name: Seq<char>) -> ValueNameView {
    if name.len() == 0 {
        ValueNameView::Default
    } else {
        ValueNameView::Named(name)
    }
}

/// The name under which the store holds a value of a document.
pub fn native_value_name(name: &ValueName) -> (out: String)
    ensures
        out@ == native_name(name@),
{
    match name {
        ValueName::Default => String::new(),
        ValueName::Named(text) => text.clone(),
    }
}

/// The name that a document has for a value name of the store.
pub fn document_value_name(name: &String) -> (out: ValueName)
    ensures
        out@ == document_name(name@),
{
    if name.as_str().is_empty() {
        ValueName::Default
    } else {
        ValueName::Named(name.clone())
    }
}

/// A raw value of the store: a byte buffer and the tag that says how the
/// store reads it.
#[derive(Debug, PartialEq, Eq)]
pub struct RegValue {
    pub bytes: Vec<u8>,
    pub vtype: RegType,
}

/// What a [`RegValue`] is, mathematically.
pub struct RegValueView {
    pub bytes: Seq<u8>,
    pub vtype: RegType,
}

impl View for RegValue {
    type V = RegValueView;

    open spec fn view(&self) -> RegValueView {
        RegValueView { bytes: self.bytes@, vtype: self.vtype }
    }
}

impl DeepView for RegValue {
    type V = RegValueView;

    open spec fn deep_view(&self) -> RegValueView {
        self@
    }
}

impl Clone for RegValue {
    fn clone(&self) -> (out: Self)
        ensures
            out@ == self@,
    {
        RegValue { bytes: self.bytes.clone(), vtype: self.vtype }
    }
}

/// One key of a document: its path, from the name of a root down, and the
/// values it holds, each under its name.
#[derive(Debug, PartialEq, Eq)]
pub struct KeyRecord {
    pub path: String,
    pub values: Vec<(ValueName, Value)>,
}

/// What a [`KeyRecord`] is, mathematically.
pub struct KeyRecordView {
    pub path: Seq<char>,
    pub values: Seq<(ValueNameView, ValueView)>,
}

impl View for KeyRecord {
    type V = KeyRecordView;

    open spec fn view(&self) -> KeyRecordView {
        KeyRecordView { path: self.path@, values: self.values.deep_view() }
    }
}

impl DeepView for KeyRecord {
    type V = KeyRecordView;

    open spec fn deep_view(&self) -> KeyRecordView {
        self@
    }
}

} // verus!
