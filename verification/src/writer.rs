//! Export: from a key of the store and everything below it to the keys of a
//! document.
//!
//! What the store holds under a key is taken as a [`KeySnapshot`]: the
//! values and the children that its enumeration gave, errors included.
//! [`RegWriter::with_all_subkeys`] turns a snapshot into the keys of a
//! document: the key itself first, then each child with all that is below
//! it, in the order of the enumeration.

use vstd::prelude::*;
use vstd::string::*;

use crate::error::{Error, ErrorView};
use crate::parsing::{from_native, winreg_to_regashii};
use crate::types::{
    document_name, document_value_name, KeyRecord, KeyRecordView, RegType, RegValue,
    RegValueView, Value, ValueName, ValueNameView, ValueView,
};

verus! {

/// One value as the enumeration of a key gives it.
#[derive(Debug, PartialEq, Eq)]
pub struct ValueEntry {
    /// The name of the value in the store: empty for the default value.
    pub name: String,
    pub value: RegValue,
}

/// What a [`ValueEntry`] is, mathematically.
pub struct ValueEntryView {
    pub name: Seq<char>,
    pub value: RegValueView,
}

impl View for ValueEntry {
    type V = ValueEntryView;

    open spec fn view(&self) -> ValueEntryView {
        ValueEntryView { name: self.name@, value: self.value@ }
    }
}

impl DeepView for ValueEntry {
    type V = ValueEntryView;

    open spec fn deep_view(&self) -> ValueEntryView {
        self@
    }
}

impl Clone for ValueEntry {
    fn clone(&self) -> (out: Self)
        ensures
            out@ == self@,
    {
        ValueEntry { name: self.name.clone(), value: self.value.clone() }
    }
}

/// One child as the enumeration of a key gives it.
#[derive(Debug, PartialEq, Eq)]
pub enum ChildEntry {
    /// The enumeration reported an error in place of a name.
    Unreadable,
    /// The enumeration gave the name, and the store did not open the child.
    Unopened { name: String },
    /// The enumeration gave the name, and this is what the child holds.
    Opened { name: String, key: KeySnapshot },
}

/// What a key of the store holds: its values and its children, in the order
/// of the enumeration. `None` among the values is an entry for which the
/// enumeration reported an error.
#[derive(Debug, PartialEq, Eq)]
pub struct KeySnapshot {
    pub values: Vec<Option<ValueEntry>>,
    pub children: Vec<ChildEntry>,
}

/// The values of one key of a document, from the values that the store
/// enumerated for it. The entries are taken in order. An unreadable entry
/// is passed over, and so is one without a type; every other gives its
/// typed value under its name. The first entry that has no typed value ends
/// the list with `UnsupportedValueType`.
pub open spec fn entries_of(path: Seq<char>, values: Seq<Option<ValueEntryView>>) -> Result<
    Seq<(ValueNameView, ValueView)>,
    ErrorView,
>
    decreases values.len(),
{
    if values.len() == 0 {
        Ok(Seq::empty())
    } else {
        match entries_of(path, values.drop_last()) {
            Err(e) => Err(e),
            Ok(entries) => match values.last() {
                None => Ok(entries),
                Some(entry) => match from_native(entry.value) {
                    Ok(Some(value)) => Ok(entries.push((document_name(entry.name), value))),
                    Ok(None) => Ok(entries),
                    Err(_) => Err(
                        ErrorView::UnsupportedValueType {
                            path,
                            name: document_name(entry.name),
                        },
                    ),
                },
            },
        }
    }
}

/// The path of the child `name` of the key at `path`.
pub open spec fn child_path(path: Seq<char>, name: Seq<char>) -> Seq<char> {
    path.push('\\') + name
}

/// The keys of a document for the key `key` of the store, which the
/// document has at `path`, and for everything below it: first the key
/// itself with its values, then its children, each with all that is below
/// it. The first failure is the outcome of the whole: no key comes out
/// beside an error.
pub open spec fn exported(key: KeySnapshot, path: Seq<char>) -> Result<
    Seq<KeyRecordView>,
    ErrorView,
>
    decreases key, 1nat, 0nat,
{
    match entries_of(path, key.values.deep_view()) {
        Err(e) => Err(e),
        Ok(values) => match exported_children(key, key.children.len() as nat, path) {
            Err(e) => Err(e),
            Ok(below) => Ok(seq![KeyRecordView { path, values }] + below),
        },
    }
}

/// The keys of a document for the first `count` children of `key`, each
/// with all that is below it. A child whose name could not be read is
/// passed over, and so is one with the empty name, which is the key itself.
/// A child that the store did not open ends the list with `SegmentNotFound`.
pub open spec fn exported_children(key: KeySnapshot, count: nat, path: Seq<char>) -> Result<
    Seq<KeyRecordView>,
    ErrorView,
>
    decreases key, 0nat, count,
{
    if count == 0 || count > key.children.len() {
        Ok(Seq::empty())
    } else {
        match exported_children(key, (count - 1) as nat, path) {
            Err(e) => Err(e),
            Ok(before) => match key.children[count - 1] {
                ChildEntry::Unreadable => Ok(before),
                ChildEntry::Unopened { name } => if name@.len() == 0 {
                    Ok(before)
                } else {
                    Err(ErrorView::SegmentNotFound { path, segment: name@ })
                },
                ChildEntry::Opened { name, key: child } => if name@.len() == 0 {
                    Ok(before)
                } else {
                    match exported(child, child_path(path, name@)) {
                        Err(e) => Err(e),
                        Ok(records) => Ok(before + records),
                    }
                },
            },
        }
    }
}

/// The values of one key of a document, from the values that the store
/// enumerated for the key at `path`.
pub fn key_entries(path: &String, values: &Vec<Option<ValueEntry>>) -> (out: Result<
    Vec<(ValueName, Value)>,
    Error,
>)
    ensures
        match entries_of(path@, values.deep_view()) {
            Ok(entries) => out is Ok && out->Ok_0.deep_view() == entries,
            Err(e) => out is Err && out->Err_0@ == e,
        },
{
    let mut entries: Vec<(ValueName, Value)> = Vec::new();
    let mut i: usize = 0;
    let ghost all = values.deep_view();
    assert(all.take(0) =~= Seq::empty());
    assert(entries.deep_view() =~= Seq::empty());
    while i < values.len()
        invariant
            i <= values.len(),
            all == values.deep_view(),
            all.len() == values.len(),
            entries_of(path@, all.take(i as int)) == Ok::<
                Seq<(ValueNameView, ValueView)>,
                ErrorView,
            >(entries.deep_view()),
        decreases values.len() - i,
    {
        proof {
            assert(all.take(i + 1).drop_last() =~= all.take(i as int));
            assert(all.take(i + 1).last() == all[i as int]);
            assert(all[i as int] == values[i as int].deep_view());
        }
        match &values[i] {
            None => {},
            Some(entry) => {
                match winreg_to_regashii(entry.value.clone()) {
                    Ok(Some(value)) => {
                        let ghost before = entries.deep_view();
                        entries.push((document_value_name(&entry.name), value));
                        assert(entries.deep_view() =~= before.push(
                            (entries[entries.len() - 1].0@, entries[entries.len() - 1].1@),
                        ));
                    },
                    Ok(None) => {},
                    Err(_) => {
                        proof {
                            lemma_entries_stop(path@, all, i + 1);
                        }
                        return Err(
                            Error::UnsupportedValueType {
                                path: path.clone(),
                                name: document_value_name(&entry.name),
                            },
                        );
                    },
                }
            },
        }
        i = i + 1;
    }
    assert(all.take(i as int) =~= all);
    Ok(entries)
}

/// Once the values of a key have stopped at an error, more entries behind
/// change nothing.
pub proof fn lemma_entries_stop(path: Seq<char>, values: Seq<Option<ValueEntryView>>, upto: int)
    requires
        0 <= upto <= values.len(),
        entries_of(path, values.take(upto)) is Err,
    ensures
        entries_of(path, values) == entries_of(path, values.take(upto)),
    decreases values.len() - upto,
{
    if upto < values.len() {
        assert(values.take(upto + 1).drop_last() =~= values.take(upto));
        lemma_entries_stop(path, values, upto + 1);
    } else {
        assert(values.take(upto) =~= values);
    }
}

/// Once the children of a key have stopped at an error, more children
/// behind change nothing.
pub proof fn lemma_children_stop(key: KeySnapshot, path: Seq<char>, upto: nat)
    requires
        upto <= key.children.len(),
        exported_children(key, upto, path) is Err,
    ensures
        exported_children(key, key.children.len() as nat, path) == exported_children(
            key,
            upto,
            path,
        ),
    decreases key.children.len() - upto,
{
    if upto < key.children.len() {
        lemma_children_stop(key, path, upto + 1);
    }
}

/// Whether the store's enumeration gave, among `values`, a value that has no
/// typed value.
pub open spec fn has_unsupported_value(values: Seq<Option<ValueEntryView>>) -> bool {
    exists|i: int|
        0 <= i < values.len() && values[i] is Some && from_native(
            (#[trigger] values[i])->0.value,
        ) is Err
}

/// Whether every entry among `values` is one that an export passes over:
/// one that the enumeration could not read, or a value without a type.
pub open spec fn all_passed_over(values: Seq<Option<ValueEntryView>>) -> bool {
    forall|i: int|
        0 <= i < values.len() ==> (#[trigger] values[i]) is None || values[i]->0.value.vtype
            == RegType::REG_NONE
}

/// A key whose entries are all passed over has no values in the document,
/// and is no failure.
pub proof fn lemma_passed_over_values(path: Seq<char>, values: Seq<Option<ValueEntryView>>)
    requires
        all_passed_over(values),
    ensures
        entries_of(path, values) == Ok::<Seq<(ValueNameView, ValueView)>, ErrorView>(
            Seq::empty(),
        ),
    decreases values.len(),
{
    if values.len() > 0 {
        let init = values.drop_last();
        assert forall|i: int| 0 <= i < init.len() implies (#[trigger] init[i]) is None
            || init[i]->0.value.vtype == RegType::REG_NONE by {
            assert(init[i] == values[i]);
        }
        lemma_passed_over_values(path, init);
        assert(values[values.len() - 1] is None || values[values.len() - 1]->0.value.vtype
            == RegType::REG_NONE);
    }
}

/// Whether `key` or a key below it, as far as an export walks, holds a
/// value that has no typed value. An export walks into every child that has
/// a name and was opened.
pub open spec fn holds_unsupported(key: KeySnapshot) -> bool
    decreases key, 1nat, 0nat,
{
    has_unsupported_value(key.values.deep_view()) || holds_unsupported_below(
        key,
        key.children.len() as nat,
    )
}

/// Whether one of the first `count` children of `key`, or a key below one
/// of them, holds a value that has no typed value.
pub open spec fn holds_unsupported_below(key: KeySnapshot, count: nat) -> bool
    decreases key, 0nat, count,
{
    if count == 0 || count > key.children.len() {
        false
    } else {
        holds_unsupported_below(key, (count - 1) as nat) || match key.children[count - 1] {
            ChildEntry::Opened { name, key: child } => name@.len() > 0 && holds_unsupported(child),
            _ => false,
        }
    }
}

/// Whether the store opened every child that an export of `key` walks into.
pub open spec fn all_opened(key: KeySnapshot) -> bool
    decreases key, 1nat, 0nat,
{
    all_opened_below(key, key.children.len() as nat)
}

/// Whether the store opened each of the first `count` children of `key`
/// that has a name, and every child below them that an export walks into.
pub open spec fn all_opened_below(key: KeySnapshot, count: nat) -> bool
    decreases key, 0nat, count,
{
    if count == 0 || count > key.children.len() {
        true
    } else {
        all_opened_below(key, (count - 1) as nat) && match key.children[count - 1] {
            ChildEntry::Unreadable => true,
            ChildEntry::Unopened { name } => name@.len() == 0,
            ChildEntry::Opened { name, key: child } => name@.len() == 0 || all_opened(child),
        }
    }
}

/// The values of a key come out if and only if none of them is
/// unsupported; otherwise the outcome is `UnsupportedValueType`.
pub proof fn lemma_entries_fail(path: Seq<char>, values: Seq<Option<ValueEntryView>>)
    ensures
        entries_of(path, values) is Err <==> has_unsupported_value(values),
        entries_of(path, values) is Err ==> entries_of(path, values)->Err_0
            is UnsupportedValueType,
    decreases values.len(),
{
    if values.len() > 0 {
        let init = values.drop_last();
        lemma_entries_fail(path, init);
        if has_unsupported_value(init) {
            let i = choose|i: int|
                0 <= i < init.len() && init[i] is Some && from_native(
                    (#[trigger] init[i])->0.value,
                ) is Err;
            assert(values[i] == init[i]);
        }
        if has_unsupported_value(values) && !has_unsupported_value(init) {
            let i = choose|i: int|
                0 <= i < values.len() && values[i] is Some && from_native(
                    (#[trigger] values[i])->0.value,
                ) is Err;
            if i < init.len() {
                assert(init[i] == values[i]);
            }
        }
        if entries_of(path, values) is Err && entries_of(path, init) is Ok {
            assert(values[values.len() - 1] is Some);
        }
    }
}

/// An export gives no document beside an unsupported value, and gives one
/// wherever nothing stands against it.
///
/// - The outcome is a document if and only if no key that the export walks
///   into holds a value without a typed value, and the store opened every
///   child on the way.
/// - Where the store opened every child on the way, the only error is
///   `UnsupportedValueType`.
/// - The document starts with the key itself, at the path that was given.
pub proof fn lemma_export_outcome(key: KeySnapshot, path: Seq<char>)
    ensures
        exported(key, path) is Ok <==> !holds_unsupported(key) && all_opened(key),
        holds_unsupported(key) ==> exported(key, path) is Err,
        all_opened(key) && exported(key, path) is Err ==> exported(key, path)->Err_0
            is UnsupportedValueType,
        exported(key, path) is Ok ==> exported(key, path)->Ok_0.len() > 0 && exported(
            key,
            path,
        )->Ok_0[0].path == path,
    decreases key, 1nat, 0nat,
{
    lemma_entries_fail(path, key.values.deep_view());
    lemma_export_outcome_below(key, key.children.len() as nat, path);
}

/// The same for the first `count` children of `key`.
pub proof fn lemma_export_outcome_below(key: KeySnapshot, count: nat, path: Seq<char>)
    ensures
        exported_children(key, count, path) is Ok <==> !holds_unsupported_below(key, count)
            && all_opened_below(key, count),
        holds_unsupported_below(key, count) ==> exported_children(key, count, path) is Err,
        all_opened_below(key, count) && exported_children(key, count, path) is Err
            ==> exported_children(key, count, path)->Err_0 is UnsupportedValueType,
    decreases key, 0nat, count,
{
    if count > 0 && count <= key.children.len() {
        lemma_export_outcome_below(key, (count - 1) as nat, path);
        match key.children[count - 1] {
            ChildEntry::Opened { name, key: child } => {
                if name@.len() > 0 {
                    lemma_export_outcome(child, child_path(path, name@));
                }
            },
            _ => {},
        }
    }
}

/// The keys of a document that is being put together, in the order in
/// which they were added.
#[derive(Debug, PartialEq, Eq)]
pub struct RegWriter {
    keys: Vec<KeyRecord>,
}

impl View for RegWriter {
    type V = Seq<KeyRecordView>;

    closed spec fn view(&self) -> Seq<KeyRecordView> {
        self.keys.deep_view()
    }
}

impl RegWriter {
    /// A writer without keys.
    pub fn new() -> (out: Self)
        ensures
            out@ == Seq::<KeyRecordView>::empty(),
    {
        let out = RegWriter { keys: Vec::new() };
        assert(out.keys.deep_view() =~= Seq::empty());
        out
    }

    /// The keys added so far, in the order in which they were added.
    pub fn keys(&self) -> (out: &Vec<KeyRecord>)
        ensures
            out.deep_view() == self@,
    {
        &self.keys
    }

    /// The keys added so far, in the order in which they were added.
    pub fn into_keys(self) -> (out: Vec<KeyRecord>)
        ensures
            out.deep_view() == self@,
    {
        self.keys
    }

    /// The writer with one more key behind those it has.
    pub fn with_key(self, name: String, key: Vec<(ValueName, Value)>) -> (out: Self)
        ensures
            out@ == self@.push(KeyRecordView { path: name@, values: key.deep_view() }),
    {
        let mut keys = self.keys;
        let ghost before = keys.deep_view();
        keys.push(KeyRecord { path: name, values: key });
        assert(keys.deep_view() =~= before.push(keys[keys.len() - 1]@));
        RegWriter { keys }
    }

    /// The writer with the key `regkey` added at the path `name`, and behind
    /// it every key below `regkey`, each at its own path. The first value
    /// that cannot be converted and the first child that the store did not
    /// open end the export with an error, and no writer comes back.
    pub fn with_all_subkeys(self, regkey: &KeySnapshot, name: String) -> (out: Result<Self, Error>)
        ensures
            match exported(*regkey, name@) {
                Ok(records) => out is Ok && out->Ok_0@ == self@ + records,
                Err(e) => out is Err && out->Err_0@ == e,
            },
        decreases regkey,
    {
        let curkey = match key_entries(&name, &regkey.values) {
            Ok(entries) => entries,
            Err(e) => {
                return Err(e);
            },
        };
        let ghost first = KeyRecordView { path: name@, values: curkey.deep_view() };
        let ghost start = self@;
        let mut writer = self.with_key(name.clone(), curkey);
        let mut i: usize = 0;
        assert(writer@ =~= start + seq![first] + Seq::empty());
        while i < regkey.children.len()
            invariant
                i <= regkey.children.len(),
                first.path == name@,
                entries_of(name@, regkey.values.deep_view()) == Ok::<
                    Seq<(ValueNameView, ValueView)>,
                    ErrorView,
                >(first.values),
                exported_children(*regkey, i as nat, name@) is Ok,
                writer@ == start + seq![first] + exported_children(
                    *regkey,
                    i as nat,
                    name@,
                )->Ok_0,
            decreases regkey.children.len() - i,
        {
            let ghost before = exported_children(*regkey, i as nat, name@)->Ok_0;
            match &regkey.children[i] {
                ChildEntry::Unreadable => {},
                ChildEntry::Unopened { name: child } => {
                    if !child.as_str().is_empty() {
                        proof {
                            lemma_children_stop(*regkey, name@, (i + 1) as nat);
                        }
                        return Err(
                            Error::SegmentNotFound { path: name, segment: child.clone() },
                        );
                    }
                },
                ChildEntry::Opened { name: child, key } => {
                    if !child.as_str().is_empty() {
                        let mut subname = name.clone();
                        subname.append("\\");
                        subname.append(child.as_str());
                        proof {
                            reveal_strlit("\\");
                            assert(subname@ =~= child_path(name@, child@));
                        }
                        match writer.with_all_subkeys(key, subname) {
                            Ok(grown) => {
                                writer = grown;
                                assert(writer@ =~= start + seq![first] + (before + exported(
                                    *key,
                                    child_path(name@, child@),
                                )->Ok_0));
                            },
                            Err(e) => {
                                proof {
                                    lemma_children_stop(*regkey, name@, (i + 1) as nat);
                                }
                                return Err(e);
                            },
                        }
                    }
                },
            }
            i = i + 1;
        }
        assert(writer@ =~= start + (seq![first] + exported_children(
            *regkey,
            regkey.children.len() as nat,
            name@,
        )->Ok_0));
        Ok(writer)
    }
}

} // verus!
