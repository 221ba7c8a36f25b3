//! Documents as `regashii` holds them.
//!
//! A document on its way in or out is a `regashii::Registry`. The library
//! does not look into one: it asks for the keys and values that a registry
//! holds, and it fills a new registry key by key. What is trusted of
//! `regashii` is said here, in the contracts of the functions that call it.
//!
//! A registry files its keys, and a key its values, without regard to case:
//! beside each name it keeps the lower-case form on record, and a name that
//! is asked for is looked up by that form too.

use vstd::prelude::*;
use vstd::string::*;

use regashii::KeyName;
use regashii::Kind as Tag;
use regashii::Value as Stored;
use regashii::ValueName as Name;

use crate::reader::RegReader;
use crate::text::text_eq;
use crate::types::{
    KeyRecord, KeyRecordView, Kind, Value, ValueName, ValueNameView, ValueView,
};
use crate::writer::RegWriter;

verus! {

/// `regashii::Registry`: a document in memory.
#[verifier::external_type_specification]
#[verifier::external_body]
pub struct ExRegistry(regashii::Registry);

/// `regashii::Key`: one key of a document in memory.
#[verifier::external_type_specification]
#[verifier::external_body]
pub struct ExKey(regashii::Key);

/// The lower-case form of a text, as `str::to_lowercase` of std gives it.
pub uninterp spec fn lowercase(text: Seq<char>) -> Seq<char>;

/// The values that a key holds: each under the name under which the key
/// has filed it.
pub uninterp spec fn key_values(key: regashii::Key) -> Map<ValueNameView, ValueView>;

/// The lower-case forms of value names that a key has on record.
pub uninterp spec fn key_known(key: regashii::Key) -> Set<ValueNameView>;

/// The keys that a registry holds: each under the path under which the
/// registry has filed it, with the values that the key holds.
pub uninterp spec fn registry_keys(registry: regashii::Registry) -> Map<
    Seq<char>,
    Map<ValueNameView, ValueView>,
>;

/// The lower-case forms of paths that a registry has on record.
pub uninterp spec fn registry_known(registry: regashii::Registry) -> Set<Seq<char>>;

/// Whether the format of a registry is that of Regedit 5: the format in
/// which it is written to a file.
pub uninterp spec fn registry_is_regedit5(registry: regashii::Registry) -> bool;

/// A typed value that has no tag of its own: every value but tagged raw
/// bytes.
enum Plain {
    Delete,
    Sz(String),
    ExpandSz(String),
    Binary(Vec<u8>),
    Dword(u32),
    DwordBigEndian(u32),
    MultiSz(Vec<String>),
    Qword(u64),
}

/// What a [`Plain`] value is, mathematically: the typed value that it is.
closed spec fn plain_view(plain: Plain) -> ValueView {
    match plain {
        Plain::Delete => ValueView::Delete,
        Plain::Sz(text) => ValueView::Sz(text@),
        Plain::ExpandSz(text) => ValueView::ExpandSz(text@),
        Plain::Binary(bytes) => ValueView::Binary(bytes@),
        Plain::Dword(x) => ValueView::Dword(x),
        Plain::DwordBigEndian(x) => ValueView::DwordBigEndian(x),
        Plain::MultiSz(items) => ValueView::MultiSz(items.deep_view()),
        Plain::Qword(x) => ValueView::Qword(x),
    }
}

/// The lower-case form of a value name.
pub open spec fn lowercase_name(name: ValueNameView) -> ValueNameView {
    match name {
        ValueNameView::Default => ValueNameView::Default,
        ValueNameView::Named(text) => ValueNameView::Named(lowercase(text)),
    }
}

/// The value name for which an optional text stands: the default value for
/// none.
pub open spec fn name_of(name: Option<Seq<char>>) -> ValueNameView {
    match name {
        None => ValueNameView::Default,
        Some(text) => ValueNameView::Named(text),
    }
}

/// A path as a registry files it: without a backslash at its end and
/// without two in a row.
pub open spec fn tidy(path: Seq<char>) -> bool {
    &&& path.len() > 0 ==> path.last() != '\\'
    &&& forall|i: int|
        0 <= i < path.len() - 1 ==> !(path[i] == '\\' && #[trigger] path[i + 1] == '\\')
}

/// Whether the keys of a registry hold a value under `name` in the key at
/// `path`.
pub open spec fn holds(
    keys: Map<Seq<char>, Map<ValueNameView, ValueView>>,
    path: Seq<char>,
    name: ValueNameView,
) -> bool {
    keys.dom().contains(path) && keys[path].dom().contains(name)
}

/// Whether a key knows a name in no spelling: it holds no value under the
/// name, and has not the lower-case form of the name on record.
pub open spec fn new_to_key(key: regashii::Key, name: ValueNameView) -> bool {
    !key_values(key).dom().contains(name) && !key_known(key).contains(lowercase_name(name))
}

/// Whether a registry knows a path in no spelling: it holds no key under
/// the path, and has not the lower-case form of the path on record.
pub open spec fn new_to_registry(registry: regashii::Registry, path: Seq<char>) -> bool {
    !registry_keys(registry).dom().contains(path) && !registry_known(registry).contains(
        lowercase(path),
    )
}

/// The lower-case form of a text.
///
/// Calls `str::to_lowercase` of std, which gives the lower-case equivalent
/// of the text as a new `String`: the form that [`lowercase`] names.
#[verifier::external_body]
fn to_lowercase(text: &str) -> (out: String)
    ensures
        out@ == lowercase(text@),
{
    text.to_lowercase()
}

/// A key without values.
///
/// Calls `regashii::Key::new`, which gives the default key: its map of
/// values and its record of lower-case names are both empty.
#[verifier::external_body]
fn key_new() -> (key: regashii::Key)
    ensures
        key_values(key).dom() == Set::<ValueNameView>::empty(),
        key_known(key) == Set::<ValueNameView>::empty(),
{
    regashii::Key::new()
}

/// The key with one more value, which has no tag of its own. No text for
/// a name is the name of the default value.
///
/// Calls `regashii::Key::with`, which is `Key::insert`. Where the key holds
/// no value under the name and has not the name's lower-case form on
/// record, `insert` files the value under the name as it is given and puts
/// the lower-case form on record. Of a name that the key knows in some
/// spelling nothing is said here.
#[verifier::external_body]
fn key_with(key: regashii::Key, name: Option<String>, value: Plain) -> (out: regashii::Key)
    ensures
        new_to_key(key, name_of(name.deep_view())) ==> key_values(out) == key_values(key).insert(
            name_of(name.deep_view()),
            plain_view(value),
        ),
        new_to_key(key, name_of(name.deep_view())) ==> key_known(out) == key_known(key).insert(
            lowercase_name(name_of(name.deep_view())),
        ),
{
    let name = name.map_or(Name::Default, Name::Named);
    key.with(name, match value {
        Plain::Delete => Stored::Delete,
        Plain::Sz(x) => Stored::Sz(x),
        Plain::ExpandSz(x) => Stored::ExpandSz(x),
        Plain::Binary(x) => Stored::Binary(x),
        Plain::Dword(x) => Stored::Dword(x),
        Plain::DwordBigEndian(x) => Stored::DwordBigEndian(x),
        Plain::MultiSz(x) => Stored::MultiSz(x),
        Plain::Qword(x) => Stored::Qword(x),
    })
}

/// The key with one more value: raw bytes under a tag. No text for a name
/// is the name of the default value.
///
/// Calls `regashii::Key::with` as [`key_with`] does, with
/// `regashii::Value::Hex` of the bytes and of the `regashii::Kind` of the
/// same name as `kind`: `Untyped` is its `None`, and an unknown tag keeps
/// its number.
#[verifier::external_body]
fn key_with_hex(key: regashii::Key, name: Option<String>, kind: Kind, bytes: Vec<u8>) -> (out:
    regashii::Key)
    ensures
        new_to_key(key, name_of(name.deep_view())) ==> key_values(out) == key_values(key).insert(
            name_of(name.deep_view()),
            ValueView::Hex { kind, bytes: bytes@ },
        ),
        new_to_key(key, name_of(name.deep_view())) ==> key_known(out) == key_known(key).insert(
            lowercase_name(name_of(name.deep_view())),
        ),
{
    key.with(name.map_or(Name::Default, Name::Named), Stored::Hex { bytes, kind: match kind {
        Kind::Untyped => Tag::None,
        Kind::Sz => Tag::Sz,
        Kind::ExpandSz => Tag::ExpandSz,
        Kind::Binary => Tag::Binary,
        Kind::Dword => Tag::Dword,
        Kind::DwordBigEndian => Tag::DwordBigEndian,
        Kind::Link => Tag::Link,
        Kind::MultiSz => Tag::MultiSz,
        Kind::ResourceList => Tag::ResourceList,
        Kind::FullResourceList => Tag::FullResourceList,
        Kind::ResourceRequirementsList => Tag::ResourceRequirementsList,
        Kind::Qword => Tag::Qword,
        Kind::Unknown(n) => Tag::Unknown(n),
    }})
}

/// A registry without keys.
///
/// Calls `regashii::Registry::new` with `Format::Regedit5`, which gives the
/// default registry in that format: its map of keys and its record of
/// lower-case paths are both empty.
#[verifier::external_body]
fn registry_new() -> (registry: regashii::Registry)
    ensures
        registry_keys(registry).dom() == Set::<Seq<char>>::empty(),
        registry_known(registry) == Set::<Seq<char>>::empty(),
        registry_is_regedit5(registry),
{
    regashii::Registry::new(regashii::Format::Regedit5)
}

/// The registry with one more key.
///
/// Calls `regashii::Registry::with`, which makes a `KeyName` of the path
/// and calls `Registry::insert`. `KeyName::new` drops backslashes at the
/// end of the path and makes one of several in a row, so it keeps a tidy
/// path as it is. Where the registry holds no key under the path and has
/// not the path's lower-case form on record, `insert` files the key under
/// the path and puts the lower-case form on record. Of a path that the
/// registry knows in some spelling nothing is said here. `insert` leaves
/// the format of the registry as it is, whatever it does with the key.
#[verifier::external_body]
fn registry_with(registry: regashii::Registry, path: String, key: regashii::Key) -> (out:
    regashii::Registry)
    ensures
        registry_is_regedit5(out) == registry_is_regedit5(registry),
        tidy(path@) && new_to_registry(registry, path@) ==> registry_keys(out) == registry_keys(
            registry,
        ).insert(path@, key_values(key)),
        tidy(path@) && new_to_registry(registry, path@) ==> registry_known(out)
            == registry_known(registry).insert(lowercase(path@)),
{
    registry.with(path, key)
}

/// The paths of the keys that a registry holds, each with the names of the
/// values of its key.
///
/// Walks `regashii::Registry::keys` and, for each key, the names in
/// `regashii::Key::values`. Both are maps of std, so no path comes twice,
/// and under one path no name comes twice.
#[verifier::external_body]
fn registry_outline(registry: &regashii::Registry) -> (out: Vec<(String, Vec<ValueName>)>)
    ensures
        forall|i: int, j: int|
            0 <= i < j < out.len() ==> (#[trigger] out.deep_view()[i]).0 != (
            #[trigger] out.deep_view()[j]).0,
        forall|path: Seq<char>|
            registry_keys(*registry).dom().contains(path) <==> exists|i: int|
                0 <= i < out.len() && (#[trigger] out.deep_view()[i]).0 == path,
        forall|i: int, k: int, l: int|
            0 <= i < out.len() && 0 <= k < l < out.deep_view()[i].1.len() ==> (
            #[trigger] out.deep_view()[i].1[k]) != (#[trigger] out.deep_view()[i].1[l]),
        forall|i: int, name: ValueNameView|
            0 <= i < out.len() ==> (#[trigger] registry_keys(
                *registry,
            )[out.deep_view()[i].0].dom().contains(name) <==> out.deep_view()[i].1.contains(
                name,
            )),
{
    registry.keys().iter().map(|(path, key)| {
        let names = key.values().keys().map(|name| match name {
            Name::Default => ValueName::Default,
            Name::Named(text) => ValueName::Named(text.clone()),
        });
        (path.raw().to_string(), names.collect())
    }).collect()
}

/// The value that a registry holds under a name in the key at a path: the
/// value itself where it has no tag of its own, and else its raw bytes. No
/// text for a name is the name of the default value.
///
/// Looks the key up in `regashii::Registry::keys` and the value in
/// `regashii::Key::values`, by the path and the name as they are given: a
/// path under which the registry has filed a key finds that key, and a name
/// under which that key has filed a value finds that value.
#[verifier::external_body]
fn registry_value(registry: &regashii::Registry, path: &str, name: Option<&str>) -> (out: Option<
    Result<Plain, Vec<u8>>,
>)
    ensures
        holds(registry_keys(*registry), path@, name_of(name.deep_view())) ==> out is Some,
        holds(registry_keys(*registry), path@, name_of(name.deep_view())) ==> match out->0 {
            Ok(plain) => plain_view(plain) == registry_keys(*registry)[path@][name_of(
                name.deep_view(),
            )],
            Err(bytes) => registry_keys(*registry)[path@][name_of(name.deep_view())] is Hex
                && bytes@ == registry_keys(*registry)[path@][name_of(name.deep_view())]->bytes,
        },
{
    let name = name.map_or(Name::Default, Name::named);
    Some(match registry.keys().get(&KeyName::new(path))?.values().get(&name)?.clone() {
        Stored::Delete => Ok(Plain::Delete),
        Stored::Sz(x) => Ok(Plain::Sz(x)),
        Stored::ExpandSz(x) => Ok(Plain::ExpandSz(x)),
        Stored::Binary(x) => Ok(Plain::Binary(x)),
        Stored::Dword(x) => Ok(Plain::Dword(x)),
        Stored::DwordBigEndian(x) => Ok(Plain::DwordBigEndian(x)),
        Stored::MultiSz(x) => Ok(Plain::MultiSz(x)),
        Stored::Qword(x) => Ok(Plain::Qword(x)),
        Stored::Hex { bytes, .. } => Err(bytes),
    })
}

/// The tag of the raw bytes that a registry holds under a name in the key
/// at a path. No text for a name is the name of the default value.
///
/// Looks the value up as [`registry_value`] does. Where it is a
/// `regashii::Value::Hex`, the tag is the one of the same name as its
/// `regashii::Kind`: `None` is `Untyped`, and an unknown tag keeps its
/// number.
#[verifier::external_body]
fn registry_tag(registry: &regashii::Registry, path: &str, name: Option<&str>) -> (out: Option<
    Kind,
>)
    ensures
        holds(registry_keys(*registry), path@, name_of(name.deep_view())) && registry_keys(
            *registry,
        )[path@][name_of(name.deep_view())] is Hex ==> out == Some(
            registry_keys(*registry)[path@][name_of(name.deep_view())]->kind,
        ),
{
    let name = name.map_or(Name::Default, Name::named);
    let stored = registry.keys().get(&KeyName::new(path))?.values().get(&name)?;
    let Stored::Hex { kind, .. } = stored else { return None };
    Some(match kind {
        Tag::None => Kind::Untyped, Tag::Sz => Kind::Sz,
        Tag::ExpandSz => Kind::ExpandSz, Tag::Binary => Kind::Binary,
        Tag::Dword => Kind::Dword, Tag::DwordBigEndian => Kind::DwordBigEndian,
        Tag::Link => Kind::Link, Tag::MultiSz => Kind::MultiSz,
        Tag::ResourceList => Kind::ResourceList,
        Tag::FullResourceList => Kind::FullResourceList,
        Tag::ResourceRequirementsList => Kind::ResourceRequirementsList,
        Tag::Qword => Kind::Qword, Tag::Unknown(n) => Kind::Unknown(*n),
    })
}

/// The value that a registry holds under a name in the key at a path.
fn held_value(registry: &regashii::Registry, path: &str, name: Option<&str>) -> (out: Option<
    Value,
>)
    ensures
        holds(registry_keys(*registry), path@, name_of(name.deep_view())) ==> out is Some
            && out->0@ == registry_keys(*registry)[path@][name_of(name.deep_view())],
{
    match registry_value(registry, path, name) {
        None => None,
        Some(Ok(plain)) => Some(
            match plain {
                Plain::Delete => Value::Delete,
                Plain::Sz(text) => Value::Sz(text),
                Plain::ExpandSz(text) => Value::ExpandSz(text),
                Plain::Binary(bytes) => Value::Binary(bytes),
                Plain::Dword(x) => Value::Dword(x),
                Plain::DwordBigEndian(x) => Value::DwordBigEndian(x),
                Plain::MultiSz(items) => Value::MultiSz(items),
                Plain::Qword(x) => Value::Qword(x),
            },
        ),
        Some(Err(bytes)) => match registry_tag(registry, path, name) {
            Some(kind) => Some(Value::Hex { kind, bytes }),
            None => None,
        },
    }
}

/// The key with one more value. No text for a name is the name of the
/// default value.
fn key_with_value(key: regashii::Key, name: Option<String>, value: Value) -> (out: regashii::Key)
    ensures
        new_to_key(key, name_of(name.deep_view())) ==> key_values(out) == key_values(key).insert(
            name_of(name.deep_view()),
            value@,
        ),
        new_to_key(key, name_of(name.deep_view())) ==> key_known(out) == key_known(key).insert(
            lowercase_name(name_of(name.deep_view())),
        ),
{
    match value {
        Value::Delete => key_with(key, name, Plain::Delete),
        Value::Sz(text) => key_with(key, name, Plain::Sz(text)),
        Value::ExpandSz(text) => key_with(key, name, Plain::ExpandSz(text)),
        Value::Binary(bytes) => key_with(key, name, Plain::Binary(bytes)),
        Value::Dword(x) => key_with(key, name, Plain::Dword(x)),
        Value::DwordBigEndian(x) => key_with(key, name, Plain::DwordBigEndian(x)),
        Value::MultiSz(items) => key_with(key, name, Plain::MultiSz(items)),
        Value::Qword(x) => key_with(key, name, Plain::Qword(x)),
        Value::Hex { kind, bytes } => key_with_hex(key, name, kind, bytes),
    }
}

/// The values of a key as a map from names to values. Of two values under
/// one name the later one stays.
pub open spec fn values_map(values: Seq<(ValueNameView, ValueView)>) -> Map<
    ValueNameView,
    ValueView,
>
    decreases values.len(),
{
    if values.len() == 0 {
        Map::empty()
    } else {
        values_map(values.drop_last()).insert(values.last().0, values.last().1)
    }
}

/// The keys of a document as a map from paths to the values of each key.
/// Of two keys at one path the later one stays.
pub open spec fn document_map(doc: Seq<KeyRecordView>) -> Map<
    Seq<char>,
    Map<ValueNameView, ValueView>,
>
    decreases doc.len(),
{
    if doc.len() == 0 {
        Map::empty()
    } else {
        document_map(doc.drop_last()).insert(doc.last().path, values_map(doc.last().values))
    }
}

/// No two values have the same name.
pub open spec fn distinct_names(values: Seq<(ValueNameView, ValueView)>) -> bool {
    forall|k: int, l: int|
        0 <= k < l < values.len() ==> (#[trigger] values[k]).0 != (#[trigger] values[l]).0
}

/// No two keys have the same path, and within a key no two values have the
/// same name.
pub open spec fn distinct(doc: Seq<KeyRecordView>) -> bool {
    &&& forall|i: int, j: int|
        0 <= i < j < doc.len() ==> (#[trigger] doc[i]).path != (#[trigger] doc[j]).path
    &&& forall|i: int| 0 <= i < doc.len() ==> distinct_names((#[trigger] doc[i]).values)
}

/// The names under which a map of values holds something are the names of
/// the values it was made of.
pub proof fn lemma_values_map_dom(values: Seq<(ValueNameView, ValueView)>, name: ValueNameView)
    ensures
        values_map(values).dom().contains(name) <==> exists|k: int|
            0 <= k < values.len() && (#[trigger] values[k]).0 == name,
    decreases values.len(),
{
    if values.len() > 0 {
        let init = values.drop_last();
        lemma_values_map_dom(init, name);
        if exists|k: int| 0 <= k < init.len() && (#[trigger] init[k]).0 == name {
            let k = choose|k: int| 0 <= k < init.len() && (#[trigger] init[k]).0 == name;
            assert(values[k] == init[k]);
        }
        if exists|k: int| 0 <= k < values.len() && (#[trigger] values[k]).0 == name {
            let k = choose|k: int| 0 <= k < values.len() && (#[trigger] values[k]).0 == name;
            if k < init.len() {
                assert(init[k] == values[k]);
            }
        }
    }
}

/// Where no two values have the same name, a map of values holds each value
/// under its name.
pub proof fn lemma_values_map_at(values: Seq<(ValueNameView, ValueView)>, k: int)
    requires
        distinct_names(values),
        0 <= k < values.len(),
    ensures
        values_map(values).dom().contains(values[k].0),
        values_map(values)[values[k].0] == values[k].1,
    decreases values.len(),
{
    let init = values.drop_last();
    if k < values.len() - 1 {
        assert forall|a: int, b: int| 0 <= a < b < init.len() implies (#[trigger] init[a]).0 != (
        #[trigger] init[b]).0 by {
            assert(init[a] == values[a]);
            assert(init[b] == values[b]);
        }
        lemma_values_map_at(init, k);
        assert(init[k] == values[k]);
        assert(values[k].0 != values[values.len() - 1].0);
    }
}

/// The paths under which a map of keys holds something are the paths of the
/// keys it was made of.
pub proof fn lemma_document_map_dom(doc: Seq<KeyRecordView>, path: Seq<char>)
    ensures
        document_map(doc).dom().contains(path) <==> exists|i: int|
            0 <= i < doc.len() && (#[trigger] doc[i]).path == path,
    decreases doc.len(),
{
    if doc.len() > 0 {
        let init = doc.drop_last();
        lemma_document_map_dom(init, path);
        if exists|i: int| 0 <= i < init.len() && (#[trigger] init[i]).path == path {
            let i = choose|i: int| 0 <= i < init.len() && (#[trigger] init[i]).path == path;
            assert(doc[i] == init[i]);
        }
        if exists|i: int| 0 <= i < doc.len() && (#[trigger] doc[i]).path == path {
            let i = choose|i: int| 0 <= i < doc.len() && (#[trigger] doc[i]).path == path;
            if i < init.len() {
                assert(init[i] == doc[i]);
            }
        }
    }
}

/// Where no two keys have the same path, a map of keys holds the values of
/// each key under its path.
pub proof fn lemma_document_map_at(doc: Seq<KeyRecordView>, i: int)
    requires
        forall|a: int, b: int|
            0 <= a < b < doc.len() ==> (#[trigger] doc[a]).path != (#[trigger] doc[b]).path,
        0 <= i < doc.len(),
    ensures
        document_map(doc).dom().contains(doc[i].path),
        document_map(doc)[doc[i].path] == values_map(doc[i].values),
    decreases doc.len(),
{
    let init = doc.drop_last();
    if i < doc.len() - 1 {
        assert forall|a: int, b: int| 0 <= a < b < init.len() implies (#[trigger] init[a]).path
            != (#[trigger] init[b]).path by {
            assert(init[a] == doc[a]);
            assert(init[b] == doc[b]);
        }
        lemma_document_map_at(init, i);
        assert(init[i] == doc[i]);
        assert(doc[i].path != doc[doc.len() - 1].path);
    }
}

/// The text of a name, where it is not that of the default value.
fn name_text(name: &ValueName) -> (out: Option<&str>)
    ensures
        name_of(out.deep_view()) == name@,
{
    match name {
        ValueName::Default => None,
        ValueName::Named(text) => Some(text.as_str()),
    }
}

/// The values that `registry` holds in the key at `path` under `names`.
fn values_under(registry: &regashii::Registry, path: &String, names: &Vec<ValueName>) -> (out: Vec<
    (ValueName, Value),
>)
    requires
        registry_keys(*registry).dom().contains(path@),
        forall|k: int|
            0 <= k < names.len() ==> registry_keys(*registry)[path@].dom().contains(
                #[trigger] names.deep_view()[k],
            ),
    ensures
        out.len() == names.len(),
        forall|k: int|
            0 <= k < out.len() ==> (#[trigger] out.deep_view()[k]) == (
                names.deep_view()[k],
                registry_keys(*registry)[path@][names.deep_view()[k]],
            ),
{
    let mut values: Vec<(ValueName, Value)> = Vec::new();
    let mut k: usize = 0;
    while k < names.len()
        invariant
            k <= names.len(),
            values.len() == k,
            registry_keys(*registry).dom().contains(path@),
            forall|l: int|
                0 <= l < names.len() ==> registry_keys(*registry)[path@].dom().contains(
                    #[trigger] names.deep_view()[l],
                ),
            forall|l: int|
                0 <= l < k ==> (#[trigger] values.deep_view()[l]) == (
                    names.deep_view()[l],
                    registry_keys(*registry)[path@][names.deep_view()[l]],
                ),
        decreases names.len() - k,
    {
        let name = &names[k];
        assert(names.deep_view()[k as int] == name@);
        let value = match held_value(registry, path.as_str(), name_text(name)) {
            Some(value) => value,
            None => {
                // The registry holds a value under every name that it listed.
                assert(false);
                Value::Delete
            },
        };
        let ghost before = values.deep_view();
        values.push((name.clone(), value));
        assert(values.deep_view() =~= before.push(
            (values[values.len() - 1].0@, values[values.len() - 1].1@),
        ));
        k = k + 1;
    }
    values
}

impl RegReader {
    /// A reader of the keys that `registry` holds: every key once, with
    /// every value of it once. The order in which the reader takes them is
    /// the order in which the registry hands them out.
    pub fn from_registry(registry: &regashii::Registry) -> (out: Self)
        ensures
            distinct(out@),
            document_map(out@) == registry_keys(*registry),
    {
        let outline = registry_outline(registry);
        let ghost listed = outline.deep_view();
        let mut keys: Vec<KeyRecord> = Vec::new();
        let mut i: usize = 0;
        while i < outline.len()
            invariant
                i <= outline.len(),
                keys.len() == i,
                listed == outline.deep_view(),
                forall|a: int, b: int|
                    0 <= a < b < listed.len() ==> (#[trigger] listed[a]).0 != (
                    #[trigger] listed[b]).0,
                forall|path: Seq<char>|
                    registry_keys(*registry).dom().contains(path) <==> exists|a: int|
                        0 <= a < listed.len() && (#[trigger] listed[a]).0 == path,
                forall|a: int, k: int, l: int|
                    0 <= a < listed.len() && 0 <= k < l < listed[a].1.len() ==> (
                    #[trigger] listed[a].1[k]) != (#[trigger] listed[a].1[l]),
                forall|a: int, name: ValueNameView|
                    0 <= a < listed.len() ==> (#[trigger] registry_keys(
                        *registry,
                    )[listed[a].0].dom().contains(name) <==> listed[a].1.contains(name)),
                forall|a: int|
                    0 <= a < i ==> (#[trigger] keys.deep_view()[a]).path == listed[a].0
                        && keys.deep_view()[a].values.len() == listed[a].1.len(),
                forall|a: int, k: int|
                    0 <= a < i && 0 <= k < listed[a].1.len() ==> (
                    #[trigger] keys.deep_view()[a].values[k]) == (
                        listed[a].1[k],
                        registry_keys(*registry)[listed[a].0][listed[a].1[k]],
                    ),
            decreases outline.len() - i,
        {
            let path = &outline[i].0;
            let names = &outline[i].1;
            proof {
                assert(listed[i as int].0 == path@);
                assert(listed[i as int].1 == names.deep_view());
                assert forall|k: int| 0 <= k < names.len() implies registry_keys(
                    *registry,
                )[path@].dom().contains(#[trigger] names.deep_view()[k]) by {
                    assert(listed[i as int].1.contains(names.deep_view()[k]));
                }
            }
            let values = values_under(registry, path, names);
            let ghost before = keys.deep_view();
            keys.push(KeyRecord { path: path.clone(), values });
            assert(keys.deep_view() =~= before.push(keys[keys.len() - 1]@));
            i = i + 1;
        }
        let out = RegReader::new(keys);
        proof {
            let doc = out@;
            assert(doc.len() == listed.len());
            assert forall|a: int| 0 <= a < doc.len() implies distinct_names(
                (#[trigger] doc[a]).values,
            ) by {
                assert forall|k: int, l: int| 0 <= k < l < doc[a].values.len() implies (
                #[trigger] doc[a].values[k]).0 != (#[trigger] doc[a].values[l]).0 by {
                    assert(listed[a].1[k] != listed[a].1[l]);
                }
            }
            assert forall|a: int, b: int| 0 <= a < b < doc.len() implies (#[trigger] doc[a]).path
                != (#[trigger] doc[b]).path by {
                assert(listed[a].0 != listed[b].0);
            }
            let held = registry_keys(*registry);
            assert forall|path: Seq<char>| document_map(doc).dom().contains(path)
                == held.dom().contains(path) by {
                lemma_document_map_dom(doc, path);
                if held.dom().contains(path) {
                    let a = choose|a: int|
                        0 <= a < listed.len() && (#[trigger] listed[a]).0 == path;
                    assert(doc[a].path == path);
                }
                if document_map(doc).dom().contains(path) {
                    let a = choose|a: int| 0 <= a < doc.len() && (#[trigger] doc[a]).path == path;
                    assert(listed[a].0 == path);
                }
            }
            assert forall|path: Seq<char>| document_map(doc).dom().contains(path) implies (
            #[trigger] document_map(doc)[path]) == held[path] by {
                lemma_document_map_dom(doc, path);
                let a = choose|a: int| 0 <= a < doc.len() && (#[trigger] doc[a]).path == path;
                lemma_document_map_at(doc, a);
                let values = doc[a].values;
                assert forall|name: ValueNameView| values_map(values).dom().contains(name)
                    == held[path].dom().contains(name) by {
                    lemma_values_map_dom(values, name);
                    if held[path].dom().contains(name) {
                        assert(listed[a].1.contains(name));
                        let k = choose|k: int| 0 <= k < listed[a].1.len() && listed[a].1[k] == name;
                        assert(values[k].0 == name);
                    }
                    if values_map(values).dom().contains(name) {
                        let k = choose|k: int|
                            0 <= k < values.len() && (#[trigger] values[k]).0 == name;
                        assert(listed[a].1[k] == name);
                        assert(listed[a].1.contains(name));
                    }
                }
                assert forall|name: ValueNameView| values_map(values).dom().contains(
                    name,
                ) implies (#[trigger] values_map(values)[name]) == held[path][name] by {
                    lemma_values_map_dom(values, name);
                    let k = choose|k: int|
                        0 <= k < values.len() && (#[trigger] values[k]).0 == name;
                    lemma_values_map_at(values, k);
                }
                assert(values_map(values) =~= held[path]);
            }
            assert(document_map(doc) =~= held);
        }
        out
    }
}

/// No two values have names that differ in case alone, or not at all.
pub open spec fn apart_names(values: Seq<(ValueNameView, ValueView)>) -> bool {
    forall|k: int, l: int|
        0 <= k < l < values.len() ==> lowercase_name((#[trigger] values[k]).0) != lowercase_name(
            (#[trigger] values[l]).0,
        )
}

/// Every path is tidy, no two keys have paths that differ in case alone or
/// not at all, and within a key no two values have such names.
pub open spec fn apart(doc: Seq<KeyRecordView>) -> bool {
    &&& forall|i: int|
        0 <= i < doc.len() ==> tidy((#[trigger] doc[i]).path) && apart_names(doc[i].values)
    &&& forall|i: int, j: int|
        0 <= i < j < doc.len() ==> lowercase((#[trigger] doc[i]).path) != lowercase(
            (#[trigger] doc[j]).path,
        )
}

/// The lower-case forms of the names of the first `count` values.
pub open spec fn known_names(values: Seq<(ValueNameView, ValueView)>, count: int) -> Set<
    ValueNameView,
> {
    Set::new(
        |name: ValueNameView|
            exists|l: int| 0 <= l < count && lowercase_name((#[trigger] values[l]).0) == name,
    )
}

/// The lower-case forms of the paths of the first `count` keys.
pub open spec fn known_paths(doc: Seq<KeyRecordView>, count: int) -> Set<Seq<char>> {
    Set::new(
        |path: Seq<char>|
            exists|j: int| 0 <= j < count && lowercase((#[trigger] doc[j]).path) == path,
    )
}

/// The text of a name for filing, where it is not that of the default
/// value.
fn name_for_filing(name: &ValueName) -> (out: Option<String>)
    ensures
        name_of(out.deep_view()) == name@,
{
    match name {
        ValueName::Default => None,
        ValueName::Named(text) => Some(text.clone()),
    }
}

/// A key of a registry that holds `values`, filed one after the other.
fn key_of(values: &Vec<(ValueName, Value)>) -> (key: regashii::Key)
    ensures
        apart_names(values.deep_view()) ==> key_values(key) == values_map(values.deep_view()),
{
    let mut key = key_new();
    let mut k: usize = 0;
    let ghost all = values.deep_view();
    let ghost filing = all;
    proof {
        assert(filing.take(0) =~= Seq::empty());
        assert(key_values(key) =~= values_map(filing.take(0)));
        assert(key_known(key) =~= known_names(all, 0));
    }
    while k < values.len()
        invariant
            k <= values.len(),
            all == values.deep_view(),
            filing == all,
            apart_names(all) ==> key_values(key) == values_map(filing.take(k as int))
                && key_known(key) == known_names(all, k as int),
        decreases values.len() - k,
    {
        let name = name_for_filing(&values[k].0);
        let value = values[k].1.clone();
        let ghost before = key;
        proof {
            assert(all[k as int] == (values[k as int].0@, values[k as int].1@));
            if apart_names(all) {
                let given = all[k as int].0;
                lemma_values_map_dom(filing.take(k as int), given);
                if key_values(before).dom().contains(given) {
                    let l = choose|l: int|
                        0 <= l < k && (#[trigger] filing.take(k as int)[l]).0 == given;
                    assert(all[l].0 == given);
                }
                if key_known(before).contains(lowercase_name(given)) {
                    let l = choose|l: int|
                        0 <= l < k && lowercase_name((#[trigger] all[l]).0) == lowercase_name(
                            given,
                        );
                    assert(false);
                }
            }
        }
        key = key_with_value(key, name, value);
        proof {
            if apart_names(all) {
                assert(filing.take(k + 1).drop_last() =~= filing.take(k as int));
                assert(filing.take(k + 1).last() == all[k as int]);
                assert(known_names(all, k + 1) =~= known_names(all, k as int).insert(
                    lowercase_name(all[k as int].0),
                ));
            }
        }
        k = k + 1;
    }
    assert(filing.take(k as int) =~= filing);
    key
}

impl RegWriter {
    /// A registry in the format of Regedit 5 that is filled with the keys
    /// of the writer, one after the other in the order in which they were
    /// added, each with its values in their order.
    ///
    /// Where every path is tidy and no two paths, and in no key two names,
    /// differ in case alone or not at all, the registry holds exactly the
    /// keys of the writer, each under its path with its values. Where
    /// names meet, the registry decides which spelling and which values
    /// stay.
    pub fn to_registry(&self) -> (out: regashii::Registry)
        ensures
            registry_is_regedit5(out),
            apart(self@) ==> registry_keys(out) == document_map(self@),
    {
        let keys = self.keys();
        let ghost doc = keys.deep_view();
        let ghost filing = doc;
        let mut registry = registry_new();
        let mut i: usize = 0;
        proof {
            assert(filing.take(0) =~= Seq::empty());
            assert(registry_keys(registry) =~= document_map(filing.take(0)));
            assert(registry_known(registry) =~= known_paths(doc, 0));
        }
        while i < keys.len()
            invariant
                i <= keys.len(),
                doc == keys.deep_view(),
                filing == doc,
                registry_is_regedit5(registry),
                apart(doc) ==> registry_keys(registry) == document_map(filing.take(i as int))
                    && registry_known(registry) == known_paths(doc, i as int),
            decreases keys.len() - i,
        {
            let key = key_of(&keys[i].values);
            let path = keys[i].path.clone();
            let ghost before = registry;
            proof {
                assert(doc[i as int] == keys[i as int]@);
                if apart(doc) {
                    let given = doc[i as int].path;
                    lemma_document_map_dom(filing.take(i as int), given);
                    if registry_keys(before).dom().contains(given) {
                        let j = choose|j: int|
                            0 <= j < i && (#[trigger] filing.take(i as int)[j]).path == given;
                        assert(doc[j].path == given);
                    }
                    if registry_known(before).contains(lowercase(given)) {
                        let j = choose|j: int|
                            0 <= j < i && lowercase((#[trigger] doc[j]).path) == lowercase(given);
                        assert(false);
                    }
                }
            }
            registry = registry_with(registry, path, key);
            proof {
                if apart(doc) {
                    assert(filing.take(i + 1).drop_last() =~= filing.take(i as int));
                    assert(filing.take(i + 1).last() == filing[i as int]);
                    assert(known_paths(doc, i + 1) =~= known_paths(doc, i as int).insert(
                        lowercase(doc[i as int].path),
                    ));
                }
            }
            i = i + 1;
        }
        assert(filing.take(i as int) =~= filing);
        registry
    }
}

/// No two of the items are the same.
pub open spec fn all_differ(items: Seq<Option<Seq<char>>>) -> bool {
    forall|a: int, b: int| 0 <= a < b < items.len() ==> #[trigger] items[a] != #[trigger] items[b]
}

/// Whether no two of the items are the same.
fn differ(items: &Vec<Option<String>>) -> (out: bool)
    ensures
        out == all_differ(items.deep_view()),
{
    let ghost all = items.deep_view();
    let mut j: usize = 0;
    while j < items.len()
        invariant
            j <= items.len(),
            all == items.deep_view(),
            forall|a: int, b: int| 0 <= a < b < j ==> #[trigger] all[a] != #[trigger] all[b],
        decreases items.len() - j,
    {
        let mut i: usize = 0;
        while i < j
            invariant
                i <= j < items.len(),
                all == items.deep_view(),
                forall|a: int| 0 <= a < i ==> #[trigger] all[a] != all[j as int],
            decreases j - i,
        {
            assert(all[i as int] == items[i as int].deep_view());
            assert(all[j as int] == items[j as int].deep_view());
            let same = match (&items[i], &items[j]) {
                (None, None) => true,
                (Some(one), Some(other)) => text_eq(one.as_str(), other.as_str()),
                _ => false,
            };
            if same {
                assert(all[i as int] == all[j as int]);
                return false;
            }
            i = i + 1;
        }
        j = j + 1;
    }
    true
}

/// Whether a path is tidy.
fn is_tidy(path: &str) -> (out: bool)
    ensures
        out == tidy(path@),
{
    let mut single = true;
    let mut last = false;
    for c in it: path.chars()
        invariant
            it.seq() == path@,
            last == (it.index() > 0 && path@[it.index() - 1] == '\\'),
            single == (forall|i: int|
                0 <= i < it.index() - 1 ==> !(path@[i] == '\\' && #[trigger] path@[i + 1] == '\\')),
    {
        let ghost n = it.index() as int;
        let now = c == '\\';
        proof {
            assert(c == path@[n]);
            if last && now {
                assert(path@[n - 1] == '\\' && path@[n - 1 + 1] == '\\');
            }
        }
        if last && now {
            single = false;
        }
        last = now;
    }
    single && !last
}

/// The lower-case form of a value name, as an optional text: none for the
/// default value.
fn lowered_name(name: &ValueName) -> (out: Option<String>)
    ensures
        name_of(out.deep_view()) == lowercase_name(name@),
{
    match name {
        ValueName::Default => None,
        ValueName::Named(text) => Some(to_lowercase(text.as_str())),
    }
}

/// Whether no two values have names that differ in case alone, or not at
/// all.
fn names_apart(values: &Vec<(ValueName, Value)>) -> (out: bool)
    ensures
        out == apart_names(values.deep_view()),
{
    let ghost all = values.deep_view();
    let mut lowered: Vec<Option<String>> = Vec::new();
    let mut k: usize = 0;
    while k < values.len()
        invariant
            k <= values.len(),
            all == values.deep_view(),
            lowered.len() == k,
            forall|l: int|
                0 <= l < k ==> name_of(#[trigger] lowered.deep_view()[l]) == lowercase_name(
                    all[l].0,
                ),
        decreases values.len() - k,
    {
        assert(all[k as int].0 == values[k as int].0@);
        let ghost before = lowered.deep_view();
        lowered.push(lowered_name(&values[k].0));
        assert(lowered.deep_view() =~= before.push(lowered[lowered.len() - 1].deep_view()));
        k = k + 1;
    }
    let out = differ(&lowered);
    proof {
        let items = lowered.deep_view();
        if out {
            assert forall|a: int, b: int| 0 <= a < b < all.len() implies lowercase_name(
                (#[trigger] all[a]).0,
            ) != lowercase_name((#[trigger] all[b]).0) by {
                assert(items[a] != items[b]);
            }
        }
        if apart_names(all) {
            assert forall|a: int, b: int| 0 <= a < b < items.len() implies #[trigger] items[a]
                != #[trigger] items[b] by {
                assert(lowercase_name(all[a].0) != lowercase_name(all[b].0));
            }
        }
    }
    out
}

impl RegWriter {
    /// Whether the keys of the writer stay apart in a registry: every path
    /// is tidy, no two keys have paths that differ in case alone or not at
    /// all, and within a key no two values have such names. Where this
    /// holds, [`RegWriter::to_registry`] gives a registry that holds
    /// exactly the keys of the writer.
    pub fn is_apart(&self) -> (out: bool)
        ensures
            out == apart(self@),
    {
        let keys = self.keys();
        let ghost doc = keys.deep_view();
        let mut lowered: Vec<Option<String>> = Vec::new();
        let mut i: usize = 0;
        while i < keys.len()
            invariant
                i <= keys.len(),
                doc == keys.deep_view(),
                doc == self@,
                lowered.len() == i,
                forall|j: int|
                    0 <= j < i ==> tidy((#[trigger] doc[j]).path) && apart_names(doc[j].values),
                forall|j: int|
                    0 <= j < i ==> #[trigger] lowered.deep_view()[j] == Some(
                        lowercase(doc[j].path),
                    ),
            decreases keys.len() - i,
        {
            assert(doc[i as int] == keys[i as int]@);
            if !is_tidy(keys[i].path.as_str()) || !names_apart(&keys[i].values) {
                assert(!(tidy(doc[i as int].path) && apart_names(doc[i as int].values)));
                return false;
            }
            let ghost before = lowered.deep_view();
            lowered.push(Some(to_lowercase(keys[i].path.as_str())));
            assert(lowered.deep_view() =~= before.push(lowered[lowered.len() - 1].deep_view()));
            i = i + 1;
        }
        let out = differ(&lowered);
        proof {
            let items = lowered.deep_view();
            if out {
                assert forall|a: int, b: int| 0 <= a < b < doc.len() implies lowercase(
                    (#[trigger] doc[a]).path,
                ) != lowercase((#[trigger] doc[b]).path) by {
                    assert(items[a] != items[b]);
                }
            }
            if apart(doc) {
                assert forall|a: int, b: int| 0 <= a < b < items.len() implies #[trigger] items[a]
                    != #[trigger] items[b] by {
                    assert(lowercase(doc[a].path) != lowercase(doc[b].path));
                }
            }
        }
        out
    }
}

} // verus!
