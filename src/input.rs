use vstd::prelude::*;

use dashmap::DashMap;

use crate::bytes::{bytes_view, copy_byte_strings};
use crate::id::{Id, Revision};

verus! {

#[verifier::external_type_specification]
#[verifier::external_body]
#[verifier::reject_recursive_types(K)]
#[verifier::reject_recursive_types(V)]
#[verifier::reject_recursive_types(S)]
pub struct ExDashMap<K, V, S>(DashMap<K, V, S>);

/// What an input entity holds.
pub struct InputView {
    pub id: Id,
    pub fields: Seq<Seq<u8>>,
    pub revisions: Seq<Revision>,
}

/// An externally supplied entity: its identity, its field values, and for
/// each field the last revision in which it was set.
pub struct InputValue {
    pub id: Id,
    pub fields: Vec<Vec<u8>>,
    pub revisions: Vec<Revision>,
}

impl View for InputValue {
    type V = InputView;

    open spec fn view(&self) -> InputView {
        InputView { id: self.id, fields: bytes_view(self.fields@), revisions: self.revisions@ }
    }
}

impl Clone for InputValue {
    fn clone(&self) -> (r: Self)
        ensures
            r@ == self@,
    {
        let mut revisions: Vec<Revision> = Vec::new();
        let mut i: usize = 0;
        while i < self.revisions.len()
            invariant
                0 <= i <= self.revisions.len(),
                revisions@ == self.revisions@.subrange(0, i as int),
            decreases self.revisions.len() - i,
        {
            revisions.push(self.revisions[i]);
            i = i + 1;
            assert(revisions@ =~= self.revisions@.subrange(0, i as int));
        }
        assert(revisions@ =~= self.revisions@);
        InputValue { id: self.id, fields: copy_byte_strings(&self.fields), revisions }
    }
}

impl InputValue {
    /// A value for entity `id` set in revision `current`: every field stamped
    /// with `current`.
    pub fn new(id: Id, fields: Vec<Vec<u8>>, current: Revision) -> (r: InputValue)
        ensures
            r@.id == id,
            r@.fields == bytes_view(fields@),
            r@.revisions == Seq::new(fields@.len(), |j: int| current),
    {
        let mut revisions: Vec<Revision> = Vec::new();
        let n = fields.len();
        while revisions.len() < n
            invariant
                revisions.len() <= n,
                forall|j: int| 0 <= j < revisions.len() ==> revisions@[j] == current,
            decreases n - revisions.len(),
        {
            revisions.push(current);
        }
        assert(revisions@ =~= Seq::new(fields@.len(), |j: int| current));
        InputValue { id, fields, revisions }
    }

    /// Sets field `field` to `data` in revision `current`; the other fields
    /// and their stamps stay.
    pub fn set_field(&mut self, field: usize, data: Vec<u8>, current: Revision)
        requires
            field < old(self).fields@.len(),
            field < old(self).revisions@.len(),
        ensures
            final(self)@ == (InputView {
                fields: old(self)@.fields.update(field as int, data@),
                revisions: old(self)@.revisions.update(field as int, current),
                ..old(self)@
            }),
    {
        let ghost f0 = self.fields@;
        self.fields.set(field, data);
        self.revisions.set(field, current);
        assert(bytes_view(self.fields@) =~= bytes_view(f0).update(field as int, data@));
    }
}

/// What a map of input entities holds, by identity.
pub uninterp spec fn input_entries(m: DashMap<Id, InputValue>) -> Map<Id, InputView>;

/// Relies on `DashMap::new`: the map starts empty.
#[verifier::external_body]
fn dash_new() -> (r: DashMap<Id, InputValue>)
    ensures
        input_entries(r).dom() == Set::<Id>::empty(),
{
    DashMap::new()
}

/// Relies on `DashMap::insert`: the key is bound to the value, and the value
/// it was bound to before, if any, is handed back.
#[verifier::external_body]
fn dash_insert(m: &mut DashMap<Id, InputValue>, id: Id, value: InputValue) -> (r: Option<InputValue>)
    ensures
        input_entries(*final(m)) == input_entries(*old(m)).insert(id, value@),
        r is Some <==> input_entries(*old(m)).contains_key(id),
        r is Some ==> r->Some_0@ == input_entries(*old(m))[id],
{
    m.insert(id, value)
}

/// Relies on `DashMap::get`: the entry bound to the key, if any, copied out
/// while the entry's shard lock is held.
#[verifier::external_body]
fn dash_get(m: &DashMap<Id, InputValue>, id: Id) -> (r: Option<InputValue>)
    ensures
        r is Some <==> input_entries(*m).contains_key(id),
        r is Some ==> r->Some_0@ == input_entries(*m)[id],
{
    m.get(&id).map(|e| e.value().clone())
}

/// Relies on `DashMap::remove`: the entry bound to the key, if any, is taken
/// out and handed back with its key.
#[verifier::external_body]
fn dash_remove(m: &mut DashMap<Id, InputValue>, id: Id) -> (r: Option<(Id, InputValue)>)
    ensures
        input_entries(*final(m)) == input_entries(*old(m)).remove(id),
        r is Some <==> input_entries(*old(m)).contains_key(id),
        r is Some ==> r->Some_0.0 == id && r->Some_0.1@ == input_entries(*old(m))[id],
{
    m.remove(&id)
}

/// Maps the identity of an input entity to its value. Reads lock one entry
/// at a time, so readers of different entities never wait on each other;
/// writes take the map exclusively.
pub struct StructMap {
    map: DashMap<Id, InputValue>,
}

impl View for StructMap {
    type V = Map<Id, InputView>;

    closed spec fn view(&self) -> Map<Id, InputView> {
        input_entries(self.map)
    }
}

impl StructMap {
    /// Each entity is stored under its own identity.
    pub open spec fn wf(&self) -> bool {
        forall|k: Id| #[trigger] self@.contains_key(k) ==> self@[k].id == k
    }

    pub fn new() -> (r: StructMap)
        ensures
            r.wf(),
            r@.dom() == Set::<Id>::empty(),
    {
        StructMap { map: dash_new() }
    }

    /// Stores a new entity under its identity, which no stored entity has.
    pub fn insert(&mut self, value: InputValue) -> (r: Id)
        requires
            old(self).wf(),
            !old(self)@.contains_key(value.id),
        ensures
            final(self).wf(),
            r == value.id,
            final(self)@ == old(self)@.insert(value.id, value@),
    {
        let id = value.id;
        let _ = dash_insert(&mut self.map, id, value);
        id
    }

    /// Whether an entity is stored under `id`.
    pub fn contains(&self, id: Id) -> (r: bool)
        ensures
            r == self@.contains_key(id),
    {
        dash_get(&self.map, id).is_some()
    }

    /// A copy of the stored entity `id`, read as one whole value.
    pub fn get(&self, id: Id) -> (r: InputValue)
        requires
            self@.contains_key(id),
        ensures
            r@ == self@[id],
    {
        dash_get(&self.map, id).unwrap()
    }

    /// Replaces the stored entity `id` by `value`, which keeps its identity.
    pub fn update(&mut self, id: Id, value: InputValue)
        requires
            old(self).wf(),
            old(self)@.contains_key(id),
            value.id == id,
        ensures
            final(self).wf(),
            final(self)@ == old(self)@.insert(id, value@),
    {
        let _ = dash_insert(&mut self.map, id, value);
    }

    /// Removes the entity `id` and hands it back, or `None` where none is
    /// stored.
    pub fn delete(&mut self, id: Id) -> (r: Option<InputValue>)
        requires
            old(self).wf(),
        ensures
            final(self).wf(),
            final(self)@ == old(self)@.remove(id),
            r is Some <==> old(self)@.contains_key(id),
            r is Some ==> r->Some_0@ == old(self)@[id],
    {
        let ghost m0 = self@;
        let r = dash_remove(&mut self.map, id);
        assert forall|k: Id| #[trigger] self@.contains_key(k) implies self@[k].id == k by {
            assert(m0.contains_key(k));
        }
        match r {
            Some((_, data)) => Some(data),
            None => None,
        }
    }
}

} // verus!
