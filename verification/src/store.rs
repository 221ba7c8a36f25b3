//! A mathematical model of the store, and what an import does to it.
//!
//! Nothing here runs. The model says what it means to open a key by its
//! name and to write a value under a name, so that the laws of path
//! resolution and of import can be stated and proved: which paths lead to
//! a key that is there, and that an import made twice leaves what an import
//! made once leaves.

use vstd::prelude::*;

use crate::error::ErrorView;
use crate::parsing::{hkey_name, hkey_of_name, lemma_hkey_of_its_name};
use crate::reader::{
    import_plan, open_refusal, resolved, route_of, ImportPlanView, KeyImportView, RouteView,
    Scope, ValueWriteView, SEPARATOR,
};
use crate::text::{join_with, lemma_split_of_join, split_on};
use crate::types::{Hkey, KeyRecordView, RegValueView};

verus! {

/// Where a key is: the root above it and the names that lead to it from the
/// root, one level each. No name is the root itself.
pub struct Place {
    pub hkey: Hkey,
    pub names: Seq<Seq<char>>,
}

/// One slot for a value: a key and a value name in it.
pub struct Slot {
    pub place: Place,
    pub name: Seq<char>,
}

/// The store: the keys that are there, and the raw value in every slot that
/// holds one.
pub struct Store {
    pub keys: Set<Place>,
    pub values: Map<Slot, RegValueView>,
}

/// The place of a root.
pub open spec fn root_place(hkey: Hkey) -> Place {
    Place { hkey, names: Seq::empty() }
}

/// The place of the key above the key at `place`.
pub open spec fn parent_place(place: Place) -> Place {
    Place { hkey: place.hkey, names: place.names.drop_last() }
}

/// The store has every root, and with every key the key above it.
pub open spec fn well_formed(store: Store) -> bool {
    &&& forall|hkey: Hkey| store.keys.contains(#[trigger] root_place(hkey))
    &&& forall|place: Place| #[trigger]
        store.keys.contains(place) && place.names.len() > 0 ==> store.keys.contains(
            parent_place(place),
        )
}

/// Opening the child `name` of the key at `place`: the child's place where
/// the child is there. The empty name opens the key itself.
pub open spec fn open_child(keys: Set<Place>, place: Place, name: Seq<char>) -> Option<Place> {
    if name.len() == 0 {
        Some(place)
    } else {
        let child = Place { hkey: place.hkey, names: place.names.push(name) };
        if keys.contains(child) {
            Some(child)
        } else {
            None
        }
    }
}

/// Opening the first `count` names of a route, from its root down: the
/// place reached, or the index of the first name that did not open.
pub open spec fn opened(keys: Set<Place>, route: RouteView, count: nat) -> Result<Place, nat>
    decreases count,
{
    if count == 0 || count > route.segments.len() {
        Ok(Place { hkey: route.hkey, names: Seq::empty() })
    } else {
        match opened(keys, route, (count - 1) as nat) {
            Err(index) => Err(index),
            Ok(place) => match open_child(keys, place, route.segments[count - 1]) {
                Some(child) => Ok(child),
                None => Err((count - 1) as nat),
            },
        }
    }
}

/// What resolving a path against the store gives: the place of the key, or
/// `RootNotFound` where the path starts at no root, or `SegmentNotFound`
/// with the first name on the way that is not there.
pub open spec fn resolved_in(store: Store, path: Seq<char>, scope: Scope) -> Result<
    Place,
    ErrorView,
> {
    match resolved(path, scope) {
        Err(e) => Err(e),
        Ok(route) => match opened(store.keys, route, route.segments.len()) {
            Ok(place) => Ok(place),
            Err(index) => Err(
                ErrorView::SegmentNotFound { path, segment: route.segments[index as int] },
            ),
        },
    }
}

/// The path that spells a place: the name of the root, and behind it each
/// name with a backslash before it.
pub open spec fn spelled(place: Place) -> Seq<char> {
    join_with(seq![hkey_name(place.hkey)] + place.names, SEPARATOR)
}

/// A name that can stand in a path: not empty, and without a backslash.
pub open spec fn plain_name(name: Seq<char>) -> bool {
    name.len() > 0 && !name.contains(SEPARATOR)
}

/// No root has a backslash in its name.
pub proof fn lemma_hkey_name_plain(hkey: Hkey)
    ensures
        plain_name(hkey_name(hkey)),
{
    reveal_strlit("HKEY_CLASSES_ROOT");
    reveal_strlit("HKEY_CURRENT_CONFIG");
    reveal_strlit("HKEY_CURRENT_USER");
    reveal_strlit("HKEY_LOCAL_MACHINE");
    reveal_strlit("HKEY_USERS");
    reveal_strlit("HKEY_PERFORMANCE_DATA");
    reveal_strlit("HKEY_DYN_DATA");
    reveal_strlit("HKEY_CURRENT_USER_LOCAL_SETTINGS");
    reveal_strlit("HKEY_PERFORMANCE_TEXT");
    reveal_strlit("HKEY_PERFORMANCE_NLSTEXT");
    let name = hkey_name(hkey);
    if name.contains(SEPARATOR) {
        let i = choose|i: int| 0 <= i < name.len() && name[i] == SEPARATOR;
        assert(name[i] == SEPARATOR);
    }
}

/// The path that spells a place resolves to the way to that place: the
/// root of the place, and its names as the names to open.
pub proof fn lemma_spelled_route(place: Place, scope: Scope)
    requires
        forall|i: int| 0 <= i < place.names.len() ==> plain_name(#[trigger] place.names[i]),
    ensures
        route_of(spelled(place), scope) == Some(
            RouteView { hkey: place.hkey, segments: place.names, scope },
        ),
{
    let pieces = seq![hkey_name(place.hkey)] + place.names;
    lemma_hkey_name_plain(place.hkey);
    assert forall|i: int| 0 <= i < pieces.len() implies !(#[trigger] pieces[i]).contains(
        SEPARATOR,
    ) by {
        if i > 0 {
            assert(pieces[i] == place.names[i - 1]);
        }
    }
    lemma_split_of_join(pieces, SEPARATOR);
    lemma_hkey_of_its_name(place.hkey);
    assert(pieces.skip(1) =~= place.names);
}

/// In a well-formed store, opening the names of a place one by one reaches
/// as far as the keys are there: all the way if and only if the key at the
/// place is there.
pub proof fn lemma_opened_iff_there(store: Store, place: Place, scope: Scope, count: nat)
    requires
        well_formed(store),
        count <= place.names.len(),
        forall|i: int| 0 <= i < place.names.len() ==> plain_name(#[trigger] place.names[i]),
    ensures
        ({
            let route = RouteView { hkey: place.hkey, segments: place.names, scope };
            let upto = Place { hkey: place.hkey, names: place.names.take(count as int) };
            &&& opened(store.keys, route, count) is Ok <==> store.keys.contains(upto)
            &&& opened(store.keys, route, count) is Ok ==> opened(store.keys, route, count)->Ok_0
                == upto
        }),
    decreases count,
{
    let route = RouteView { hkey: place.hkey, segments: place.names, scope };
    let upto = Place { hkey: place.hkey, names: place.names.take(count as int) };
    if count == 0 {
        assert(place.names.take(0) =~= Seq::empty());
        assert(upto == root_place(place.hkey));
    } else {
        lemma_opened_iff_there(store, place, scope, (count - 1) as nat);
        let before = Place { hkey: place.hkey, names: place.names.take(count - 1) };
        assert(plain_name(place.names[count - 1]));
        assert(place.names.take(count - 1).push(place.names[count - 1]) =~= place.names.take(
            count as int,
        ));
        assert(upto.names.drop_last() =~= before.names);
        assert(parent_place(upto) == before);
    }
}

/// A path that spells a place resolves against a well-formed store if and
/// only if the key at that place is there, and then it resolves to that
/// place.
pub proof fn lemma_resolves_iff_there(store: Store, place: Place, scope: Scope)
    requires
        well_formed(store),
        forall|i: int| 0 <= i < place.names.len() ==> plain_name(#[trigger] place.names[i]),
    ensures
        resolved_in(store, spelled(place), scope) is Ok <==> store.keys.contains(place),
        resolved_in(store, spelled(place), scope) is Ok ==> resolved_in(
            store,
            spelled(place),
            scope,
        )->Ok_0 == place,
{
    lemma_spelled_route(place, scope);
    lemma_opened_iff_there(store, place, scope, place.names.len());
    assert(place.names.take(place.names.len() as int) =~= place.names);
}

/// A path whose first piece names no root resolves to `RootNotFound`,
/// whatever the store holds: nothing of the store is looked at.
pub proof fn lemma_unknown_root(store: Store, path: Seq<char>, scope: Scope)
    requires
        hkey_of_name(split_on(path, SEPARATOR)[0]) is None,
    ensures
        resolved_in(store, path, scope) == Err::<Place, ErrorView>(
            ErrorView::RootNotFound { path },
        ),
{
}

/// One write as it reaches the store: the slot and the raw value it gets.
pub struct Effect {
    pub slot: Slot,
    pub value: RegValueView,
}

/// The writes of one key, as they reach the store at `place`.
pub open spec fn effects_at(place: Place, writes: Seq<ValueWriteView>) -> Seq<Effect> {
    Seq::new(
        writes.len(),
        |i: int| Effect { slot: Slot { place, name: writes[i].name }, value: writes[i].value },
    )
}

/// What carrying out the keys of a plan does, given the keys that are
/// there: the writes that reach the store, in order, and the error at which
/// the run stops. Each key is opened along its route; where a name on the
/// way is not there the run stops with `SegmentNotFound`, and nothing is
/// written for that key or any behind it.
pub open spec fn effects_of(keys: Set<Place>, plan: Seq<KeyImportView>) -> (
    Seq<Effect>,
    Option<ErrorView>,
)
    decreases plan.len(),
{
    if plan.len() == 0 {
        (Seq::empty(), None)
    } else {
        let (effects, failure) = effects_of(keys, plan.drop_last());
        if failure is Some {
            (effects, failure)
        } else {
            let key = plan.last();
            match opened(keys, key.route, key.route.segments.len()) {
                Ok(place) => (effects + effects_at(place, key.writes), None),
                Err(index) => (effects, Some(open_refusal(key, index))),
            }
        }
    }
}

/// The values of the store after writes were made in order: each write puts
/// its value into its slot, over whatever the slot held.
pub open spec fn overwritten(values: Map<Slot, RegValueView>, effects: Seq<Effect>) -> Map<
    Slot,
    RegValueView,
>
    decreases effects.len(),
{
    if effects.len() == 0 {
        values
    } else {
        overwritten(values, effects.drop_last()).insert(
            effects.last().slot,
            effects.last().value,
        )
    }
}

/// The store after a plan was carried out on it, and the error with which
/// the run ended. Keys are neither made nor removed. Every write that is
/// reached is taken to succeed.
pub open spec fn imported(store: Store, plan: ImportPlanView) -> (Store, Option<ErrorView>) {
    let (effects, failure) = effects_of(store.keys, plan.keys);
    (
        Store { keys: store.keys, values: overwritten(store.values, effects) },
        if failure is Some {
            failure
        } else {
            plan.failure
        },
    )
}

/// The value that the last write to `slot` among `effects` put there.
pub open spec fn last_written(effects: Seq<Effect>, slot: Slot) -> Option<RegValueView>
    decreases effects.len(),
{
    if effects.len() == 0 {
        None
    } else if effects.last().slot == slot {
        Some(effects.last().value)
    } else {
        last_written(effects.drop_last(), slot)
    }
}

/// The last write wins: after writes were made in order, a slot holds what
/// the last write to it put there, and what it held before where there was
/// no write to it.
pub proof fn lemma_last_write_wins(
    values: Map<Slot, RegValueView>,
    effects: Seq<Effect>,
    slot: Slot,
)
    ensures
        overwritten(values, effects).dom().contains(slot) <==> (last_written(effects, slot)
            is Some || values.dom().contains(slot)),
        last_written(effects, slot) is Some ==> overwritten(values, effects)[slot]
            == last_written(effects, slot)->0,
        last_written(effects, slot) is None ==> overwritten(values, effects)[slot]
            == values[slot],
    decreases effects.len(),
{
    if effects.len() > 0 {
        lemma_last_write_wins(values, effects.drop_last(), slot);
    }
}

/// Writes made a second time change nothing.
pub proof fn lemma_overwritten_twice(values: Map<Slot, RegValueView>, effects: Seq<Effect>)
    ensures
        overwritten(overwritten(values, effects), effects) == overwritten(values, effects),
{
    let once = overwritten(values, effects);
    let twice = overwritten(once, effects);
    assert forall|slot: Slot| twice.dom().contains(slot) == once.dom().contains(slot) by {
        lemma_last_write_wins(values, effects, slot);
        lemma_last_write_wins(once, effects, slot);
    }
    assert forall|slot: Slot| twice.dom().contains(slot) implies twice[slot] == once[slot] by {
        lemma_last_write_wins(values, effects, slot);
        lemma_last_write_wins(once, effects, slot);
    }
    assert(twice =~= once);
}

/// An import made twice leaves what an import made once leaves: the same
/// store, and the same error or none. Within the store the last write to a
/// slot wins, as [`lemma_last_write_wins`] states.
pub proof fn lemma_import_twice(store: Store, plan: ImportPlanView)
    ensures
        imported(imported(store, plan).0, plan) == imported(store, plan),
{
    let (effects, failure) = effects_of(store.keys, plan.keys);
    lemma_overwritten_twice(store.values, effects);
}

/// The store after a document was imported into it, and the error with
/// which the import ended.
pub open spec fn imported_document(store: Store, doc: Seq<KeyRecordView>, scope: Scope) -> (
    Store,
    Option<ErrorView>,
) {
    imported(store, import_plan(doc, scope))
}

/// A document imported twice leaves what the document imported once
/// leaves: every slot holds what the last write to it put there, and the
/// second import ends as the first did.
pub proof fn lemma_import_document_twice(store: Store, doc: Seq<KeyRecordView>, scope: Scope)
    ensures
        imported_document(imported_document(store, doc, scope).0, doc, scope)
            == imported_document(store, doc, scope),
{
    lemma_import_twice(store, import_plan(doc, scope));
}

/// A document whose first key starts at no root is imported without a
/// look at the store: nothing is opened, nothing is written, and the import
/// ends with `RootNotFound`.
pub proof fn lemma_unknown_root_touches_nothing(
    store: Store,
    doc: Seq<KeyRecordView>,
    scope: Scope,
)
    requires
        doc.len() > 0,
        hkey_of_name(split_on(doc[0].path, SEPARATOR)[0]) is None,
    ensures
        import_plan(doc, scope).keys.len() == 0,
        imported_document(store, doc, scope) == (
            store,
            Some(ErrorView::RootNotFound { path: doc[0].path }),
        ),
{
    let first = doc.take(1);
    assert(first.drop_last() =~= Seq::<KeyRecordView>::empty());
    assert(first.last() == doc[0]);
    assert(import_plan(first.drop_last(), scope).keys.len() == 0);
    assert(route_of(doc[0].path, scope) is None);
    assert(import_plan(first, scope).keys.len() == 0);
    crate::reader::lemma_plan_stops(doc, scope, 1);
    let plan = import_plan(doc, scope);
    assert(plan.keys =~= Seq::<KeyImportView>::empty());
    assert(effects_of(store.keys, plan.keys).0 =~= Seq::<Effect>::empty());
    assert(overwritten(store.values, Seq::<Effect>::empty()) == store.values);
}

} // verus!
