//! Import: from the keys of a document to the writes that put them into the
//! store.
//!
//! The store is not touched here. [`RegReader::load_all_immediate`] and
//! [`RegReader::load_all_transacted`] say which keys are to be opened and
//! which raw values are to be written, in order, and with which error the
//! run ends if it does not end well. Whoever holds the store carries the
//! plan out step by step and stops at the first step that the store refuses.

use vstd::prelude::*;
use vstd::string::*;

use crate::error::{Error, ErrorView};
use crate::parsing::{hkey_from_string, hkey_of_name, regasii_to_winreg, to_native};
use crate::text::{split, split_on};
use crate::types::{
    document_name, document_value_name, native_name, native_value_name, Hkey, KeyRecord,
    KeyRecordView, RegValue, RegValueView, ValueName, ValueNameView, ValueView,
};

verus! {

/// How the keys of the store are opened.
#[derive(Debug, Clone, Copy, PartialEq, Eq, Structural)]
pub enum Scope {
    /// Against the live store.
    Direct,
    /// Within a transaction that the caller holds, commits or rolls back.
    Transacted,
}

/// The way to a key: the root to start at and the names to open below it,
/// one level each, in order. No name means the root itself.
#[derive(Debug, PartialEq, Eq)]
pub struct Route {
    pub hkey: Hkey,
    pub segments: Vec<String>,
    pub scope: Scope,
}

/// What a [`Route`] is, mathematically.
pub struct RouteView {
    pub hkey: Hkey,
    pub segments: Seq<Seq<char>>,
    pub scope: Scope,
}

impl View for Route {
    type V = RouteView;

    open spec fn view(&self) -> RouteView {
        RouteView { hkey: self.hkey, segments: self.segments.deep_view(), scope: self.scope }
    }
}

impl DeepView for Route {
    type V = RouteView;

    open spec fn deep_view(&self) -> RouteView {
        self@
    }
}

/// One write: the raw value that the store is to hold under `name` in the
/// key that is open. The empty name is that of the key's default value.
#[derive(Debug, PartialEq, Eq)]
pub struct ValueWrite {
    pub name: String,
    pub value: RegValue,
}

/// What a [`ValueWrite`] is, mathematically.
pub struct ValueWriteView {
    pub name: Seq<char>,
    pub value: RegValueView,
}

impl View for ValueWrite {
    type V = ValueWriteView;

    open spec fn view(&self) -> ValueWriteView {
        ValueWriteView { name: self.name@, value: self.value@ }
    }
}

impl DeepView for ValueWrite {
    type V = ValueWriteView;

    open spec fn deep_view(&self) -> ValueWriteView {
        self@
    }
}

/// What is done for one key of the document: the key is opened along
/// `route`, then `writes` are made in it, in order.
#[derive(Debug, PartialEq, Eq)]
pub struct KeyImport {
    /// The path of the key as the document spells it.
    pub path: String,
    pub route: Route,
    pub writes: Vec<ValueWrite>,
}

/// What a [`KeyImport`] is, mathematically.
pub struct KeyImportView {
    pub path: Seq<char>,
    pub route: RouteView,
    pub writes: Seq<ValueWriteView>,
}

impl View for KeyImport {
    type V = KeyImportView;

    open spec fn view(&self) -> KeyImportView {
        KeyImportView { path: self.path@, route: self.route@, writes: self.writes.deep_view() }
    }
}

impl DeepView for KeyImport {
    type V = KeyImportView;

    open spec fn deep_view(&self) -> KeyImportView {
        self@
    }
}

/// The error of a run that stopped because the store did not open the name
/// at position `index` of a route.
pub open spec fn open_refusal(key: KeyImportView, index: nat) -> ErrorView {
    ErrorView::SegmentNotFound {
        path: key.path,
        segment: if index < key.route.segments.len() {
            key.route.segments[index as int]
        } else {
            Seq::empty()
        },
    }
}

/// The error of a run that stopped because the store refused the write at
/// position `index`, with what the store said of it.
pub open spec fn write_refusal(key: KeyImportView, index: nat, message: Seq<char>) -> ErrorView {
    ErrorView::NativeIoError {
        path: key.path,
        name: if index < key.writes.len() {
            document_name(key.writes[index as int].name)
        } else {
            ValueNameView::Default
        },
        message,
    }
}

impl KeyImport {
    /// The error with which a run ends when the store does not open the
    /// name at position `index` of the route.
    pub fn open_refused(&self, index: usize) -> (out: Error)
        ensures
            out@ == open_refusal(self@, index as nat),
    {
        let segment = if index < self.route.segments.len() {
            self.route.segments[index].clone()
        } else {
            String::new()
        };
        Error::SegmentNotFound { path: self.path.clone(), segment }
    }

    /// The error with which a run ends when the store refuses the write at
    /// position `index`, with `message` for what the store said of it.
    pub fn write_refused(&self, index: usize, message: String) -> (out: Error)
        ensures
            out@ == write_refusal(self@, index as nat, message@),
    {
        let name = if index < self.writes.len() {
            document_value_name(&self.writes[index].name)
        } else {
            ValueName::Default
        };
        Error::NativeIoError { path: self.path.clone(), name, message }
    }
}

/// A whole import: the keys to open and fill, in order, and the error with
/// which the run ends once all of them are done, if it ends with one.
#[derive(Debug, PartialEq, Eq)]
pub struct ImportPlan {
    pub keys: Vec<KeyImport>,
    pub failure: Option<Error>,
}

/// What an [`ImportPlan`] is, mathematically.
pub struct ImportPlanView {
    pub keys: Seq<KeyImportView>,
    pub failure: Option<ErrorView>,
}

impl View for ImportPlan {
    type V = ImportPlanView;

    open spec fn view(&self) -> ImportPlanView {
        ImportPlanView { keys: self.keys.deep_view(), failure: self.failure.deep_view() }
    }
}

/// The character between the pieces of a key path.
pub const SEPARATOR: char = '\\';

/// The way to the key at `path`. The path is cut at every backslash; its
/// first piece must be the name of a root, and every piece behind it is one
/// name to open. There is no way where the first piece names no root.
pub open spec fn route_of(path: Seq<char>, scope: Scope) -> Option<RouteView> {
    let pieces = split_on(path, SEPARATOR);
    match hkey_of_name(pieces[0]) {
        Some(hkey) => Some(RouteView { hkey, segments: pieces.skip(1), scope }),
        None => None,
    }
}

/// What the outcome of looking for a way is, mathematically.
pub open spec fn route_outcome(out: Result<Route, Error>) -> Result<RouteView, ErrorView> {
    match out {
        Ok(route) => Ok(route@),
        Err(e) => Err(e@),
    }
}

/// The outcome of looking for the way to the key at `path`.
pub open spec fn resolved(path: Seq<char>, scope: Scope) -> Result<RouteView, ErrorView> {
    match route_of(path, scope) {
        Some(route) => Ok(route),
        None => Err(ErrorView::RootNotFound { path }),
    }
}

/// The way to the key at `name`, or `RootNotFound` where the first piece of
/// `name` is not the name of a root. Nothing is opened.
pub fn resolve(name: &str, scope: Scope) -> (out: Result<Route, Error>)
    ensures
        route_outcome(out) == resolved(name@, scope),
{
    let mut pieces = split(name, SEPARATOR);
    proof {
        crate::text::lemma_split_on(name@, SEPARATOR);
    }
    let ghost all = pieces.deep_view();
    assert(pieces[0]@ == all[0]);
    match hkey_from_string(pieces[0].as_str()) {
        Some(hkey) => {
            pieces.remove(0);
            assert(pieces.deep_view() =~= all.skip(1));
            Ok(Route { hkey, segments: pieces, scope })
        },
        None => Err(Error::RootNotFound { path: String::from_str(name) }),
    }
}

/// The way to the key at `name`, for opening against the live store.
pub fn keyname_to_regkey(name: &str) -> (out: Result<Route, Error>)
    ensures
        route_outcome(out) == resolved(name@, Scope::Direct),
{
    resolve(name, Scope::Direct)
}

/// The way to the key at `name`, for opening within a transaction.
pub fn keyname_to_regkey_transacted(name: &str) -> (out: Result<Route, Error>)
    ensures
        route_outcome(out) == resolved(name@, Scope::Transacted),
{
    resolve(name, Scope::Transacted)
}

/// The writes for the values of one key, and the error at which they stop.
/// The values are taken in order. Each that has a raw value gives one
/// write. The first that has none ends the list with
/// `UnsupportedValueType`, and nothing behind it is looked at.
pub open spec fn writes_of(path: Seq<char>, values: Seq<(ValueNameView, ValueView)>) -> (
    Seq<ValueWriteView>,
    Option<ErrorView>,
)
    decreases values.len(),
{
    if values.len() == 0 {
        (Seq::empty(), None)
    } else {
        let (writes, failure) = writes_of(path, values.drop_last());
        if failure is Some {
            (writes, failure)
        } else {
            let (name, value) = values.last();
            match to_native(value) {
                Some(native) => (
                    writes.push(ValueWriteView { name: native_name(name), value: native }),
                    None,
                ),
                None => (writes, Some(ErrorView::UnsupportedValueType { path, name })),
            }
        }
    }
}

/// The plan for a document. The keys are taken in order. Each whose path
/// starts at a root is opened and gets the writes of its values. The first
/// key whose path names no root ends the plan with `RootNotFound`, before
/// anything is opened for it; the first value without a raw value ends it
/// with `UnsupportedValueType`, behind the writes of the values before it.
/// Nothing behind the first failure is looked at.
pub open spec fn import_plan(doc: Seq<KeyRecordView>, scope: Scope) -> ImportPlanView
    decreases doc.len(),
{
    if doc.len() == 0 {
        ImportPlanView { keys: Seq::empty(), failure: None }
    } else {
        let before = import_plan(doc.drop_last(), scope);
        if before.failure is Some {
            before
        } else {
            let record = doc.last();
            match route_of(record.path, scope) {
                None => ImportPlanView {
                    keys: before.keys,
                    failure: Some(ErrorView::RootNotFound { path: record.path }),
                },
                Some(route) => {
                    let (writes, failure) = writes_of(record.path, record.values);
                    ImportPlanView {
                        keys: before.keys.push(
                            KeyImportView { path: record.path, route, writes },
                        ),
                        failure,
                    }
                },
            }
        }
    }
}

/// Once the writes of a key have stopped at an error, more values behind
/// change nothing.
pub proof fn lemma_writes_stop(
    path: Seq<char>,
    values: Seq<(ValueNameView, ValueView)>,
    upto: int,
)
    requires
        0 <= upto <= values.len(),
        writes_of(path, values.take(upto)).1 is Some,
    ensures
        writes_of(path, values) == writes_of(path, values.take(upto)),
    decreases values.len() - upto,
{
    if upto < values.len() {
        assert(values.take(upto + 1).drop_last() =~= values.take(upto));
        lemma_writes_stop(path, values, upto + 1);
    } else {
        assert(values.take(upto) =~= values);
    }
}

/// Once a plan has stopped at an error, more keys behind change nothing.
pub proof fn lemma_plan_stops(doc: Seq<KeyRecordView>, scope: Scope, upto: int)
    requires
        0 <= upto <= doc.len(),
        import_plan(doc.take(upto), scope).failure is Some,
    ensures
        import_plan(doc, scope) == import_plan(doc.take(upto), scope),
    decreases doc.len() - upto,
{
    if upto < doc.len() {
        assert(doc.take(upto + 1).drop_last() =~= doc.take(upto));
        lemma_plan_stops(doc, scope, upto + 1);
    } else {
        assert(doc.take(upto) =~= doc);
    }
}

/// The write for one value of a document that has a raw value.
pub open spec fn write_of(entry: (ValueNameView, ValueView)) -> ValueWriteView {
    ValueWriteView { name: native_name(entry.0), value: to_native(entry.1)->0 }
}

/// Whether every value has a raw value.
pub open spec fn all_convertible(values: Seq<(ValueNameView, ValueView)>) -> bool {
    forall|k: int| 0 <= k < values.len() ==> to_native((#[trigger] values[k]).1) is Some
}

/// The writes of a key end without an error if and only if every value of
/// the key has a raw value, and then there is one write for each value, in
/// the order of the values.
pub proof fn lemma_writes_complete(path: Seq<char>, values: Seq<(ValueNameView, ValueView)>)
    ensures
        writes_of(path, values).1 is None <==> all_convertible(values),
        all_convertible(values) ==> writes_of(path, values).0 == Seq::new(
            values.len(),
            |k: int| write_of(values[k]),
        ),
        writes_of(path, values).0.len() <= values.len(),
    decreases values.len(),
{
    if values.len() > 0 {
        let init = values.drop_last();
        lemma_writes_complete(path, init);
        if all_convertible(values) {
            assert forall|k: int| 0 <= k < init.len() implies to_native(
                (#[trigger] init[k]).1,
            ) is Some by {
                assert(init[k] == values[k]);
            }
            assert(to_native(values[values.len() - 1].1) is Some);
            assert(writes_of(path, values).0 =~= Seq::new(
                values.len(),
                |k: int| write_of(values[k]),
            ));
        }
        if all_convertible(init) && to_native(values.last().1) is Some {
            assert forall|k: int| 0 <= k < values.len() implies to_native(
                (#[trigger] values[k]).1,
            ) is Some by {
                if k < init.len() {
                    assert(init[k] == values[k]);
                }
            }
        }
    } else {
        assert(writes_of(path, values).0 =~= Seq::new(
            values.len(),
            |k: int| write_of(values[k]),
        ));
    }
}

/// What is done for one key of a document whose path starts at a root and
/// whose values all have raw values.
pub open spec fn key_import_of(record: KeyRecordView, scope: Scope) -> KeyImportView {
    KeyImportView {
        path: record.path,
        route: route_of(record.path, scope)->0,
        writes: Seq::new(record.values.len(), |k: int| write_of(record.values[k])),
    }
}

/// Whether every key starts at a root and every value has a raw value.
pub open spec fn importable(doc: Seq<KeyRecordView>, scope: Scope) -> bool {
    forall|i: int|
        0 <= i < doc.len() ==> route_of((#[trigger] doc[i]).path, scope) is Some
            && all_convertible(doc[i].values)
}

/// A plan ends without an error if and only if every key of the document
/// starts at a root and every value has a raw value, and then it opens each
/// key and writes each value, in the order of the document.
pub proof fn lemma_plan_complete(doc: Seq<KeyRecordView>, scope: Scope)
    ensures
        import_plan(doc, scope).failure is None <==> importable(doc, scope),
        importable(doc, scope) ==> import_plan(doc, scope).keys == Seq::new(
            doc.len(),
            |i: int| key_import_of(doc[i], scope),
        ),
        import_plan(doc, scope).keys.len() <= doc.len(),
    decreases doc.len(),
{
    if doc.len() > 0 {
        let init = doc.drop_last();
        let last = doc.last();
        lemma_plan_complete(init, scope);
        lemma_writes_complete(last.path, last.values);
        if importable(doc, scope) {
            assert forall|i: int| 0 <= i < init.len() implies route_of(
                (#[trigger] init[i]).path,
                scope,
            ) is Some && all_convertible(init[i].values) by {
                assert(init[i] == doc[i]);
            }
            assert(route_of(doc[doc.len() - 1].path, scope) is Some);
            assert(import_plan(doc, scope).keys =~= Seq::new(
                doc.len(),
                |i: int| key_import_of(doc[i], scope),
            ));
        }
        if importable(init, scope) && route_of(last.path, scope) is Some && all_convertible(
            last.values,
        ) {
            assert forall|i: int| 0 <= i < doc.len() implies route_of(
                (#[trigger] doc[i]).path,
                scope,
            ) is Some && all_convertible(doc[i].values) by {
                if i < init.len() {
                    assert(init[i] == doc[i]);
                }
            }
        }
    } else {
        assert(import_plan(doc, scope).keys =~= Seq::new(
            doc.len(),
            |i: int| key_import_of(doc[i], scope),
        ));
    }
}

/// The writes for the values of `record`, and the error at which they stop.
pub fn key_writes(record: &KeyRecord) -> (out: (Vec<ValueWrite>, Option<Error>))
    ensures
        (out.0.deep_view(), out.1.deep_view()) == writes_of(record@.path, record@.values),
{
    let mut writes: Vec<ValueWrite> = Vec::new();
    let mut i: usize = 0;
    let ghost values = record@.values;
    assert(values.take(0) =~= Seq::empty());
    assert(writes.deep_view() =~= Seq::empty());
    while i < record.values.len()
        invariant
            i <= record.values.len(),
            values == record@.values,
            values.len() == record.values.len(),
            writes_of(record@.path, values.take(i as int)) == (
                writes.deep_view(),
                None::<ErrorView>,
            ),
        decreases record.values.len() - i,
    {
        proof {
            assert(values.take(i + 1).drop_last() =~= values.take(i as int));
            assert(values.take(i + 1).last() == values[i as int]);
            assert(values[i as int] == (record.values[i as int].0@, record.values[i as int].1@));
        }
        let name = &record.values[i].0;
        let value = &record.values[i].1;
        match regasii_to_winreg(value.clone()) {
            Some(native) => {
                let ghost before = writes.deep_view();
                let write = ValueWrite { name: native_value_name(name), value: native };
                writes.push(write);
                assert(writes.deep_view() =~= before.push(writes[writes.len() - 1]@));
            },
            None => {
                let failure = Error::UnsupportedValueType {
                    path: record.path.clone(),
                    name: name.clone(),
                };
                proof {
                    lemma_writes_stop(record@.path, values, i + 1);
                }
                return (writes, Some(failure));
            },
        }
        i = i + 1;
    }
    assert(values.take(i as int) =~= values);
    (writes, None)
}

/// A document that is ready to be put into the store.
#[derive(Debug, PartialEq, Eq)]
pub struct RegReader {
    keys: Vec<KeyRecord>,
}

impl View for RegReader {
    type V = Seq<KeyRecordView>;

    closed spec fn view(&self) -> Seq<KeyRecordView> {
        self.keys.deep_view()
    }
}

impl RegReader {
    /// A reader of the given keys, which it takes in the given order.
    pub fn new(keys: Vec<KeyRecord>) -> (out: Self)
        ensures
            out@ == keys.deep_view(),
    {
        RegReader { keys }
    }

    /// The keys of the document, in the order in which they are imported.
    pub fn keys(&self) -> (out: &Vec<KeyRecord>)
        ensures
            out.deep_view() == self@,
    {
        &self.keys
    }

    /// The plan that puts every key and every value of the document into
    /// the store, with every key opened as `scope` says.
    pub fn load_all(&self, scope: Scope) -> (plan: ImportPlan)
        ensures
            plan@ == import_plan(self@, scope),
    {
        let mut keys: Vec<KeyImport> = Vec::new();
        let mut i: usize = 0;
        let ghost doc = self@;
        assert(doc.take(0) =~= Seq::empty());
        assert(keys.deep_view() =~= Seq::empty());
        while i < self.keys.len()
            invariant
                i <= self.keys.len(),
                doc == self@,
                doc.len() == self.keys.len(),
                import_plan(doc.take(i as int), scope) == (ImportPlanView {
                    keys: keys.deep_view(),
                    failure: None,
                }),
            decreases self.keys.len() - i,
        {
            proof {
                assert(doc.take(i + 1).drop_last() =~= doc.take(i as int));
                assert(doc.take(i + 1).last() == self.keys[i as int]@);
            }
            let record = &self.keys[i];
            match resolve(record.path.as_str(), scope) {
                Err(failure) => {
                    proof {
                        lemma_plan_stops(doc, scope, i + 1);
                    }
                    return ImportPlan { keys, failure: Some(failure) };
                },
                Ok(route) => {
                    let (writes, failure) = key_writes(record);
                    let ghost before = keys.deep_view();
                    keys.push(KeyImport { path: record.path.clone(), route, writes });
                    assert(keys.deep_view() =~= before.push(keys[keys.len() - 1]@));
                    if failure.is_some() {
                        proof {
                            lemma_plan_stops(doc, scope, i + 1);
                        }
                        return ImportPlan { keys, failure };
                    }
                },
            }
            i = i + 1;
        }
        assert(doc.take(i as int) =~= doc);
        ImportPlan { keys, failure: None }
    }

    /// The plan that puts the document into the live store at once.
    pub fn load_all_immediate(&self) -> (plan: ImportPlan)
        ensures
            plan@ == import_plan(self@, Scope::Direct),
    {
        self.load_all(Scope::Direct)
    }

    /// The plan that puts the document into the store within a transaction.
    /// The transaction stays with the caller: nothing here commits it or
    /// rolls it back.
    pub fn load_all_transacted(&self) -> (plan: ImportPlan)
        ensures
            plan@ == import_plan(self@, Scope::Transacted),
    {
        self.load_all(Scope::Transacted)
    }
}

} // verus!
