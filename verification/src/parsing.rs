//! The type codec: typed document values to raw store values and back.
//!
//! [`regasii_to_winreg`] gives the raw value that the store is to hold for a
//! typed value of a document; [`winreg_to_regashii`] gives the typed value
//! that a document is to hold for a raw value of the store. Both are total:
//! what cannot be converted comes back as `None` or as an error, never as a
//! panic.

use vstd::prelude::*;
use vstd::slice::slice_to_vec;
use vstd::string::*;
use vstd::utf8::encode_utf8;

use crate::packing::{
    decode32, decode64, encode32, encode64, u32_to_u8s, u64_to_u8s, u8s_to_u32, u8s_to_u64,
    WrongWidth,
};
use crate::text::{decode, lemma_text_of_its_bytes, text_eq, text_of};
use crate::types::{Hkey, Kind, RegType, RegValue, RegValueView, Value, ValueView};

verus! {

/// The store's tag for a document's tag: one line per tag, and no tag of the
/// store for `Untyped` and for a tag that the document does not know.
pub open spec fn regtype_of_kind(kind: Kind) -> Option<RegType> {
    match kind {
        Kind::Untyped => None,
        Kind::Sz => Some(RegType::REG_SZ),
        Kind::ExpandSz => Some(RegType::REG_EXPAND_SZ),
        Kind::Binary => Some(RegType::REG_BINARY),
        Kind::Dword => Some(RegType::REG_DWORD),
        Kind::DwordBigEndian => Some(RegType::REG_DWORD_BIG_ENDIAN),
        Kind::Link => Some(RegType::REG_LINK),
        Kind::MultiSz => Some(RegType::REG_MULTI_SZ),
        Kind::ResourceList => Some(RegType::REG_RESOURCE_LIST),
        Kind::FullResourceList => Some(RegType::REG_FULL_RESOURCE_DESCRIPTOR),
        Kind::ResourceRequirementsList => Some(RegType::REG_RESOURCE_REQUIREMENTS_LIST),
        Kind::Qword => Some(RegType::REG_QWORD),
        Kind::Unknown(_) => None,
    }
}

/// The store's tag for a document's tag, where there is one.
pub fn kind_to_regtype(kind: Kind) -> (out: Option<RegType>)
    ensures
        out == regtype_of_kind(kind),
{
    match kind {
        Kind::Untyped => None,
        Kind::Sz => Some(RegType::REG_SZ),
        Kind::ExpandSz => Some(RegType::REG_EXPAND_SZ),
        Kind::Binary => Some(RegType::REG_BINARY),
        Kind::Dword => Some(RegType::REG_DWORD),
        Kind::DwordBigEndian => Some(RegType::REG_DWORD_BIG_ENDIAN),
        Kind::Link => Some(RegType::REG_LINK),
        Kind::MultiSz => Some(RegType::REG_MULTI_SZ),
        Kind::ResourceList => Some(RegType::REG_RESOURCE_LIST),
        Kind::FullResourceList => Some(RegType::REG_FULL_RESOURCE_DESCRIPTOR),
        Kind::ResourceRequirementsList => Some(RegType::REG_RESOURCE_REQUIREMENTS_LIST),
        Kind::Qword => Some(RegType::REG_QWORD),
        Kind::Unknown(_) => None,
    }
}

/// The raw value that stands for a typed value, where there is one.
///
/// - `Delete` has none: there is nothing to write.
/// - A text is the bytes of its UTF-8 form, with no terminator.
/// - Binary data is itself.
/// - A 32-bit integer is its four bytes, least significant first, under
///   either of its two tags: the big-endian tag changes the tag and not the
///   byte order.
/// - A 64-bit integer is its eight bytes, least significant first.
/// - A list of texts is the UTF-8 form of the texts joined end to end, with
///   no separator and no terminator; an empty list has no raw value.
/// - Tagged raw bytes are themselves under the store's tag for their tag,
///   and have no raw value where the store has no such tag.
pub open spec fn to_native(value: ValueView) -> Option<RegValueView> {
    match value {
        ValueView::Delete => None,
        ValueView::Sz(text) => Some(
            RegValueView { bytes: encode_utf8(text), vtype: RegType::REG_SZ },
        ),
        ValueView::ExpandSz(text) => Some(
            RegValueView { bytes: encode_utf8(text), vtype: RegType::REG_EXPAND_SZ },
        ),
        ValueView::Binary(bytes) => Some(RegValueView { bytes, vtype: RegType::REG_BINARY }),
        ValueView::Dword(x) => Some(
            RegValueView { bytes: encode32(x), vtype: RegType::REG_DWORD },
        ),
        ValueView::DwordBigEndian(x) => Some(
            RegValueView { bytes: encode32(x), vtype: RegType::REG_DWORD_BIG_ENDIAN },
        ),
        ValueView::MultiSz(items) => if items.len() == 0 {
            None
        } else {
            Some(RegValueView { bytes: encode_utf8(items.flatten()), vtype: RegType::REG_MULTI_SZ })
        },
        ValueView::Qword(x) => Some(
            RegValueView { bytes: encode64(x), vtype: RegType::REG_QWORD },
        ),
        ValueView::Hex { kind, bytes } => match regtype_of_kind(kind) {
            Some(vtype) => Some(RegValueView { bytes, vtype }),
            None => None,
        },
    }
}

/// The raw value that the store is to hold for `value`, or `None` where
/// there is nothing that can be written.
pub fn regasii_to_winreg(value: Value) -> (out: Option<RegValue>)
    ensures
        out.deep_view() == to_native(value@),
{
    match value {
        Value::Delete => None,
        Value::Sz(text) => Some(
            RegValue { bytes: text.as_str().as_bytes_vec(), vtype: RegType::REG_SZ },
        ),
        Value::ExpandSz(text) => Some(
            RegValue { bytes: text.as_str().as_bytes_vec(), vtype: RegType::REG_EXPAND_SZ },
        ),
        Value::Binary(items) => Some(RegValue { bytes: items, vtype: RegType::REG_BINARY }),
        Value::Dword(val) => Some(
            RegValue {
                bytes: slice_to_vec(u32_to_u8s(val).as_slice()),
                vtype: RegType::REG_DWORD,
            },
        ),
        Value::DwordBigEndian(val) => Some(
            RegValue {
                bytes: slice_to_vec(u32_to_u8s(val).as_slice()),
                vtype: RegType::REG_DWORD_BIG_ENDIAN,
            },
        ),
        Value::MultiSz(items) => {
            if items.len() == 0 {
                return None;
            }
            let mut joined = String::new();
            let mut i: usize = 0;
            assert(items.deep_view().take(0) =~= Seq::<Seq<char>>::empty());
            while i < items.len()
                invariant
                    i <= items.len(),
                    joined@ == items.deep_view().take(i as int).flatten(),
                decreases items.len() - i,
            {
                proof {
                    let done = items.deep_view().take(i as int);
                    done.lemma_flatten_push(items[i as int]@);
                    assert(items.deep_view().take(i + 1) =~= done.push(items[i as int]@));
                }
                joined.append(items[i].as_str());
                i = i + 1;
            }
            assert(items.deep_view().take(items.len() as int) =~= items.deep_view());
            Some(RegValue { bytes: joined.as_str().as_bytes_vec(), vtype: RegType::REG_MULTI_SZ })
        },
        Value::Qword(val) => Some(
            RegValue {
                bytes: slice_to_vec(u64_to_u8s(val).as_slice()),
                vtype: RegType::REG_QWORD,
            },
        ),
        Value::Hex { kind, bytes } => match kind_to_regtype(kind) {
            Some(vtype) => Some(RegValue { bytes, vtype }),
            None => None,
        },
    }
}

/// The name of a root, as key paths spell it.
pub open spec fn hkey_name(hkey: Hkey) -> Seq<char> {
    match hkey {
        Hkey::HKEY_CLASSES_ROOT => "HKEY_CLASSES_ROOT"@,
        Hkey::HKEY_CURRENT_CONFIG => "HKEY_CURRENT_CONFIG"@,
        Hkey::HKEY_CURRENT_USER => "HKEY_CURRENT_USER"@,
        Hkey::HKEY_LOCAL_MACHINE => "HKEY_LOCAL_MACHINE"@,
        Hkey::HKEY_USERS => "HKEY_USERS"@,
        Hkey::HKEY_PERFORMANCE_DATA => "HKEY_PERFORMANCE_DATA"@,
        Hkey::HKEY_DYN_DATA => "HKEY_DYN_DATA"@,
        Hkey::HKEY_CURRENT_USER_LOCAL_SETTINGS => "HKEY_CURRENT_USER_LOCAL_SETTINGS"@,
        Hkey::HKEY_PERFORMANCE_TEXT => "HKEY_PERFORMANCE_TEXT"@,
        Hkey::HKEY_PERFORMANCE_NLSTEXT => "HKEY_PERFORMANCE_NLSTEXT"@,
    }
}

/// The root that a name spells: the one root whose name is exactly `name`,
/// letter for letter and case for case.
pub open spec fn hkey_of_name(name: Seq<char>) -> Option<Hkey> {
    if exists|hkey: Hkey| hkey_name(hkey) == name {
        Some(choose|hkey: Hkey| hkey_name(hkey) == name)
    } else {
        None
    }
}

/// No two roots have the same name.
pub proof fn lemma_hkey_names_differ(a: Hkey, b: Hkey)
    requires
        hkey_name(a) == hkey_name(b),
    ensures
        a == b,
{
    reveal_strlit("HKEY_CLASSES_ROOT");
    reveal_strlit("HKEY_CURRENT_CONFIG");
    reveal_strlit("HKEY_CURRENT_USER");
    reveal_strlit("HKEY_LOCAL_MACHINE");
    reveal_strlit("HKEY_USERS");
    reveal_strlit("HKEY_PERFORMANCE_DATA");
    reveal_strlit("HKEY_DYN_DATA");
    reveal_strlit("HKEY_CURRENT_USER_LOCAL_SETTINGS");
    reveal_strlit("HKEY_PERFORMANCE_TEXT");
    reveal_strlit("HKEY_PERFORMANCE_NLSTEXT");
    if a != b {
        // Names of different roots differ in length, or at one of the
        // letters that are read here.
        let x = hkey_name(a);
        let y = hkey_name(b);
        assert(x.len() == y.len());
        assert(x[6] == y[6]);
        assert(x[17] == y[17]);
    }
}

/// A root's name spells that root.
pub proof fn lemma_hkey_of_its_name(hkey: Hkey)
    ensures
        hkey_of_name(hkey_name(hkey)) == Some(hkey),
{
    let found = choose|other: Hkey| hkey_name(other) == hkey_name(hkey);
    lemma_hkey_names_differ(found, hkey);
}

/// The name of a root, as key paths spell it.
pub fn hkey_to_string(hkey: Hkey) -> (name: &'static str)
    ensures
        name@ == hkey_name(hkey),
{
    match hkey {
        Hkey::HKEY_CLASSES_ROOT => "HKEY_CLASSES_ROOT",
        Hkey::HKEY_CURRENT_CONFIG => "HKEY_CURRENT_CONFIG",
        Hkey::HKEY_CURRENT_USER => "HKEY_CURRENT_USER",
        Hkey::HKEY_LOCAL_MACHINE => "HKEY_LOCAL_MACHINE",
        Hkey::HKEY_USERS => "HKEY_USERS",
        Hkey::HKEY_PERFORMANCE_DATA => "HKEY_PERFORMANCE_DATA",
        Hkey::HKEY_DYN_DATA => "HKEY_DYN_DATA",
        Hkey::HKEY_CURRENT_USER_LOCAL_SETTINGS => "HKEY_CURRENT_USER_LOCAL_SETTINGS",
        Hkey::HKEY_PERFORMANCE_TEXT => "HKEY_PERFORMANCE_TEXT",
        Hkey::HKEY_PERFORMANCE_NLSTEXT => "HKEY_PERFORMANCE_NLSTEXT",
    }
}

/// The root that `string` names, if it names one. The match is exact: a
/// name in other letters, in another case or with anything around it names
/// no root.
pub fn hkey_from_string(string: &str) -> (out: Option<Hkey>)
    ensures
        out == hkey_of_name(string@),
        out matches Some(hkey) ==> hkey_name(hkey) == string@,
        out is None ==> forall|hkey: Hkey| hkey_name(hkey) != string@,
{
    let out = if text_eq(string, "HKEY_CLASSES_ROOT") {
        Some(Hkey::HKEY_CLASSES_ROOT)
    } else if text_eq(string, "HKEY_CURRENT_CONFIG") {
        Some(Hkey::HKEY_CURRENT_CONFIG)
    } else if text_eq(string, "HKEY_CURRENT_USER") {
        Some(Hkey::HKEY_CURRENT_USER)
    } else if text_eq(string, "HKEY_LOCAL_MACHINE") {
        Some(Hkey::HKEY_LOCAL_MACHINE)
    } else if text_eq(string, "HKEY_USERS") {
        Some(Hkey::HKEY_USERS)
    } else if text_eq(string, "HKEY_PERFORMANCE_DATA") {
        Some(Hkey::HKEY_PERFORMANCE_DATA)
    } else if text_eq(string, "HKEY_DYN_DATA") {
        Some(Hkey::HKEY_DYN_DATA)
    } else if text_eq(string, "HKEY_CURRENT_USER_LOCAL_SETTINGS") {
        Some(Hkey::HKEY_CURRENT_USER_LOCAL_SETTINGS)
    } else if text_eq(string, "HKEY_PERFORMANCE_TEXT") {
        Some(Hkey::HKEY_PERFORMANCE_TEXT)
    } else if text_eq(string, "HKEY_PERFORMANCE_NLSTEXT") {
        Some(Hkey::HKEY_PERFORMANCE_NLSTEXT)
    } else {
        None
    };
    proof {
        match out {
            Some(hkey) => {
                lemma_hkey_of_its_name(hkey);
            },
            None => {
                assert forall|hkey: Hkey| hkey_name(hkey) != string@ by {
                    match hkey {
                        Hkey::HKEY_CLASSES_ROOT => {},
                        Hkey::HKEY_CURRENT_CONFIG => {},
                        Hkey::HKEY_CURRENT_USER => {},
                        Hkey::HKEY_LOCAL_MACHINE => {},
                        Hkey::HKEY_USERS => {},
                        Hkey::HKEY_PERFORMANCE_DATA => {},
                        Hkey::HKEY_DYN_DATA => {},
                        Hkey::HKEY_CURRENT_USER_LOCAL_SETTINGS => {},
                        Hkey::HKEY_PERFORMANCE_TEXT => {},
                        Hkey::HKEY_PERFORMANCE_NLSTEXT => {},
                    }
                }
            },
        }
    }
    out
}

/// Why a raw value of the store has no typed value.
#[derive(Debug, Clone, Copy, PartialEq, Eq, Structural)]
pub enum Unsupported {
    /// The tag is one that documents do not carry: a link, a list of texts,
    /// or one of the three resource descriptions.
    Type(RegType),
    /// The tag is that of an integer and the buffer is not that integer's
    /// width.
    Width(WrongWidth),
    /// The tag is that of a text and the buffer spells no text.
    Text,
}

/// The typed value that stands for a raw value.
///
/// - Under a text tag the value is the text that the buffer spells: the
///   text whose UTF-8 form the buffer is. A buffer that spells no text is an
///   error.
/// - Under `REG_NONE` there is no typed value, and no error either: the
///   entry is left out.
/// - Binary data is itself.
/// - An integer is what its bytes unpack to, least significant first, and
///   keeps its tag; a buffer of another width is an error.
/// - Every other tag is an error.
pub open spec fn from_native(value: RegValueView) -> Result<Option<ValueView>, Unsupported> {
    match value.vtype {
        RegType::REG_SZ => match text_of(value.bytes) {
            Some(text) => Ok(Some(ValueView::Sz(text))),
            None => Err(Unsupported::Text),
        },
        RegType::REG_EXPAND_SZ => match text_of(value.bytes) {
            Some(text) => Ok(Some(ValueView::ExpandSz(text))),
            None => Err(Unsupported::Text),
        },
        RegType::REG_NONE => Ok(None),
        RegType::REG_BINARY => Ok(Some(ValueView::Binary(value.bytes))),
        RegType::REG_DWORD => match decode32(value.bytes) {
            Ok(x) => Ok(Some(ValueView::Dword(x))),
            Err(width) => Err(Unsupported::Width(width)),
        },
        RegType::REG_DWORD_BIG_ENDIAN => match decode32(value.bytes) {
            Ok(x) => Ok(Some(ValueView::DwordBigEndian(x))),
            Err(width) => Err(Unsupported::Width(width)),
        },
        RegType::REG_QWORD => match decode64(value.bytes) {
            Ok(x) => Ok(Some(ValueView::Qword(x))),
            Err(width) => Err(Unsupported::Width(width)),
        },
        RegType::REG_LINK => Err(Unsupported::Type(RegType::REG_LINK)),
        RegType::REG_MULTI_SZ => Err(Unsupported::Type(RegType::REG_MULTI_SZ)),
        RegType::REG_RESOURCE_LIST => Err(Unsupported::Type(RegType::REG_RESOURCE_LIST)),
        RegType::REG_FULL_RESOURCE_DESCRIPTOR => Err(
            Unsupported::Type(RegType::REG_FULL_RESOURCE_DESCRIPTOR),
        ),
        RegType::REG_RESOURCE_REQUIREMENTS_LIST => Err(
            Unsupported::Type(RegType::REG_RESOURCE_REQUIREMENTS_LIST),
        ),
    }
}

/// What the outcome of reading a raw value is, mathematically.
pub open spec fn typed_outcome(out: Result<Option<Value>, Unsupported>) -> Result<
    Option<ValueView>,
    Unsupported,
> {
    match out {
        Ok(Some(v)) => Ok(Some(v@)),
        Ok(None) => Ok(None),
        Err(e) => Err(e),
    }
}

/// The typed value that a document is to hold for `value`: `Ok(None)` where
/// the entry is to be left out, an error where the value cannot be carried.
pub fn winreg_to_regashii(value: RegValue) -> (out: Result<Option<Value>, Unsupported>)
    ensures
        typed_outcome(out) == from_native(value@),
{
    match value.vtype {
        RegType::REG_SZ => match decode(value.bytes) {
            Some(text) => Ok(Some(Value::Sz(text))),
            None => Err(Unsupported::Text),
        },
        RegType::REG_EXPAND_SZ => match decode(value.bytes) {
            Some(text) => Ok(Some(Value::ExpandSz(text))),
            None => Err(Unsupported::Text),
        },
        RegType::REG_NONE => Ok(None),
        RegType::REG_BINARY => Ok(Some(Value::Binary(value.bytes))),
        RegType::REG_DWORD => match u8s_to_u32(value.bytes) {
            Ok(x) => Ok(Some(Value::Dword(x))),
            Err(width) => Err(Unsupported::Width(width)),
        },
        RegType::REG_DWORD_BIG_ENDIAN => match u8s_to_u32(value.bytes) {
            Ok(x) => Ok(Some(Value::DwordBigEndian(x))),
            Err(width) => Err(Unsupported::Width(width)),
        },
        RegType::REG_QWORD => match u8s_to_u64(value.bytes) {
            Ok(x) => Ok(Some(Value::Qword(x))),
            Err(width) => Err(Unsupported::Width(width)),
        },
        RegType::REG_LINK => Err(Unsupported::Type(RegType::REG_LINK)),
        RegType::REG_MULTI_SZ => Err(Unsupported::Type(RegType::REG_MULTI_SZ)),
        RegType::REG_RESOURCE_LIST => Err(Unsupported::Type(RegType::REG_RESOURCE_LIST)),
        RegType::REG_FULL_RESOURCE_DESCRIPTOR => Err(
            Unsupported::Type(RegType::REG_FULL_RESOURCE_DESCRIPTOR),
        ),
        RegType::REG_RESOURCE_REQUIREMENTS_LIST => Err(
            Unsupported::Type(RegType::REG_RESOURCE_REQUIREMENTS_LIST),
        ),
    }
}

/// A text, binary data and an integer of either width come back from the
/// store as they went in: the raw value of such a typed value exists, and
/// its typed value is the one that was converted.
pub proof fn lemma_round_trip(value: ValueView)
    requires
        value is Sz || value is ExpandSz || value is Binary || value is Dword
            || value is DwordBigEndian || value is Qword,
    ensures
        to_native(value) is Some,
        from_native(to_native(value).unwrap()) == Ok::<Option<ValueView>, Unsupported>(
            Some(value),
        ),
{
    match value {
        ValueView::Sz(text) => {
            lemma_text_of_its_bytes(text);
        },
        ValueView::ExpandSz(text) => {
            lemma_text_of_its_bytes(text);
        },
        ValueView::Dword(x) => {
            crate::packing::lemma_round_trip32(x);
        },
        ValueView::DwordBigEndian(x) => {
            crate::packing::lemma_round_trip32(x);
        },
        ValueView::Qword(x) => {
            crate::packing::lemma_round_trip64(x);
        },
        _ => {},
    }
}

} // verus!
