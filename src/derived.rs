use vstd::prelude::*;

use crate::bytes::{bytes_equal, bytes_view};
use crate::id::{Id, Revision};

verus! {

/// Why an update of a tracked entity was refused.
#[derive(PartialEq, Eq, Structural, Debug, Clone, Copy)]
pub enum TrackedError {
    /// No live entity has the given identity.
    UnknownId,
    /// The entity was already written in the given revision.
    DoubleUpdate,
}

/// What a tracked entity holds.
pub struct EntryView {
    /// The content key formed from the entity's identity fields.
    pub key: Seq<u8>,
    /// The value fields.
    pub fields: Seq<Seq<u8>>,
    /// For each value field, the last revision in which it changed.
    pub revisions: Seq<Revision>,
    /// The revision in which the identity was allocated.
    pub created_at: Revision,
    /// The last revision in which the entity was produced again.
    pub validated_at: Revision,
    /// The last revision in which the value fields were written.
    pub updated_at: Revision,
}

/// A derived entity as stored.
pub struct TrackedEntry {
    key: Vec<u8>,
    fields: Vec<Vec<u8>>,
    revisions: Vec<Revision>,
    created_at: Revision,
    validated_at: Revision,
    updated_at: Revision,
}

impl View for TrackedEntry {
    type V = EntryView;

    closed spec fn view(&self) -> EntryView {
        EntryView {
            key: self.key@,
            fields: bytes_view(self.fields@),
            revisions: self.revisions@,
            created_at: self.created_at,
            validated_at: self.validated_at,
            updated_at: self.updated_at,
        }
    }
}

/// What a tracked store holds: one slot per identity ever allocated, empty
/// once the entity was swept.
pub struct TrackedView {
    pub slots: Seq<Option<EntryView>>,
    /// For each value field, whether an equal new value keeps its revision.
    pub backdate: Seq<bool>,
    /// The latest revision the store has been used in.
    pub current: Revision,
}

/// A fresh entity created in revision `cur`: every field stamped with `cur`.
pub open spec fn fresh_entry(key: Seq<u8>, fields: Seq<Seq<u8>>, cur: Revision) -> EntryView {
    EntryView {
        key,
        fields,
        revisions: Seq::new(fields.len(), |j: int| cur),
        created_at: cur,
        validated_at: cur,
        updated_at: cur,
    }
}

/// The revision stamps after `e`'s fields are replaced by `new_fields` in
/// revision `cur`: a backdated field whose value is equal keeps its stamp,
/// every other field gets `cur`.
pub open spec fn backdated(e: EntryView, new_fields: Seq<Seq<u8>>, backdate: Seq<bool>, cur: Revision) -> Seq<Revision> {
    Seq::new(
        backdate.len(),
        |j: int|
            if backdate[j] && e.fields[j] == new_fields[j] {
                e.revisions[j]
            } else {
                cur
            },
    )
}

impl TrackedView {
    pub open spec fn arity(self) -> nat {
        self.backdate.len()
    }

    pub open spec fn is_live(self, id: int) -> bool {
        0 <= id < self.slots.len() && self.slots[id] is Some
    }

    pub open spec fn entry(self, id: int) -> EntryView {
        self.slots[id]->Some_0
    }

    /// Every live entity has one value and one stamp per field, no stamp lies
    /// after the current revision, and no two live entities share a key.
    pub open spec fn wf(self) -> bool {
        &&& forall|id: int|
            #![trigger self.slots[id]]
            self.is_live(id) ==> {
                &&& self.entry(id).fields.len() == self.arity()
                &&& self.entry(id).revisions.len() == self.arity()
                &&& self.entry(id).created_at <= self.current
                &&& self.entry(id).validated_at <= self.current
                &&& self.entry(id).updated_at <= self.current
            }
        &&& forall|id: int, j: int|
            self.is_live(id) && 0 <= j < self.arity() ==> #[trigger] self.entry(id).revisions[j]
                <= self.current
        &&& self.keys_unique()
    }

    /// No two live entities share a content key.
    pub open spec fn keys_unique(self) -> bool {
        forall|a: int, b: int|
            #![trigger self.slots[a], self.slots[b]]
            self.is_live(a) && self.is_live(b) && a != b ==> self.entry(a).key != self.entry(b).key
    }

    /// The identity of the live entity with content key `key`, or the next
    /// identity to be allocated when there is none.
    pub open spec fn key_index(self, key: Seq<u8>) -> int {
        if exists|i: int| self.is_live(i) && self.entry(i).key == key {
            choose|i: int| self.is_live(i) && self.entry(i).key == key
        } else {
            self.slots.len() as int
        }
    }

    /// The store after `key` is looked up in revision `cur`: the live entity
    /// with that key is revalidated, or a fresh one holding `fields` is added.
    pub open spec fn after_lookup(self, key: Seq<u8>, fields: Seq<Seq<u8>>, cur: Revision) -> TrackedView {
        let i = self.key_index(key);
        TrackedView {
            slots: if i < self.slots.len() {
                self.slots.update(i, Some(EntryView { validated_at: cur, ..self.entry(i) }))
            } else {
                self.slots.push(Some(fresh_entry(key, fields, cur)))
            },
            backdate: self.backdate,
            current: cur,
        }
    }

    /// What an update of `id` in revision `cur` returns.
    pub open spec fn update_outcome(self, id: int, cur: Revision) -> Result<(), TrackedError> {
        if !self.is_live(id) {
            Err(TrackedError::UnknownId)
        } else if self.entry(id).updated_at == cur {
            Err(TrackedError::DoubleUpdate)
        } else {
            Ok(())
        }
    }

    /// The store after `id` is updated with `new_fields` in revision `cur`.
    pub open spec fn after_update(self, id: int, new_fields: Seq<Seq<u8>>, cur: Revision) -> TrackedView {
        TrackedView {
            slots: if self.update_outcome(id, cur) is Ok {
                self.slots.update(
                    id,
                    Some(
                        EntryView {
                            fields: new_fields,
                            revisions: backdated(self.entry(id), new_fields, self.backdate, cur),
                            updated_at: cur,
                            ..self.entry(id)
                        },
                    ),
                )
            } else {
                self.slots
            },
            backdate: self.backdate,
            current: cur,
        }
    }

    /// The store after every entity not revalidated since `since` is removed.
    pub open spec fn after_sweep(self, since: Revision) -> TrackedView {
        TrackedView {
            slots: Seq::new(
                self.slots.len(),
                |i: int|
                    if self.slots[i] is Some && self.slots[i]->Some_0.validated_at < since {
                        None
                    } else {
                        self.slots[i]
                    },
            ),
            backdate: self.backdate,
            current: self.current,
        }
    }
}

pub open spec fn slot_view(o: Option<TrackedEntry>) -> Option<EntryView> {
    match o {
        Some(e) => Some(e@),
        None => None,
    }
}

/// Derived entities, identified by the content of their identity fields and
/// tracked field by field across revisions.
pub struct TrackedStore {
    slots: Vec<Option<TrackedEntry>>,
    backdate: Vec<bool>,
    current: Revision,
}

impl View for TrackedStore {
    type V = TrackedView;

    closed spec fn view(&self) -> TrackedView {
        TrackedView {
            slots: self.slots@.map_values(|o: Option<TrackedEntry>| slot_view(o)),
            backdate: self.backdate@,
            current: self.current,
        }
    }
}

/// A live entity whose key is `key` is the one that `key_index` names.
pub proof fn lemma_key_index_unique(v: TrackedView, key: Seq<u8>, i: int)
    requires
        v.keys_unique(),
        v.is_live(i),
        v.entry(i).key == key,
    ensures
        v.key_index(key) == i,
{
    let k = v.key_index(key);
    assert(v.is_live(k) && v.entry(k).key == key);
    if k != i {
        assert(v.slots[k] is Some && v.slots[i] is Some);
    }
}

impl TrackedStore {
    /// An empty store for entities whose value fields are backdated as
    /// `backdate` says, one flag per field.
    pub fn new(backdate: Vec<bool>) -> (r: TrackedStore)
        ensures
            r@.wf(),
            r@.slots.len() == 0,
            r@.backdate == backdate@,
            r@.current == 0,
    {
        TrackedStore { slots: Vec::new(), backdate, current: 0 }
    }

    /// The index of the live entity with key `key`, or the number of slots.
    fn find_key(&self, key: &Vec<u8>) -> (r: usize)
        requires
            self@.wf(),
        ensures
            r as int == self@.key_index(key@),
    {
        let mut i: usize = 0;
        while i < self.slots.len()
            invariant
                self@.wf(),
                0 <= i <= self.slots.len(),
                forall|j: int| 0 <= j < i && self@.is_live(j) ==> self@.entry(j).key != key@,
            decreases self.slots.len() - i,
        {
            match &self.slots[i] {
                Some(e) => {
                    assert(self@.slots[i as int] == Some(e@));
                    if bytes_equal(&e.key, key) {
                        proof {
                            lemma_key_index_unique(self@, key@, i as int);
                        }
                        return i;
                    }
                },
                None => {},
            }
            i = i + 1;
        }
        i
    }
    /// The identity of the live entity with content key `key`, revalidated in
    /// revision `current`; where there is none, a fresh identity for a new
    /// entity that holds `fields`, every field stamped with `current`.
    pub fn lookup_or_create(&mut self, key: Vec<u8>, fields: Vec<Vec<u8>>, current: Revision) -> (r: Id)
        requires
            old(self)@.wf(),
            old(self)@.current <= current,
            fields@.len() == old(self)@.arity(),
        ensures
            final(self)@.wf(),
            r as int == old(self)@.key_index(key@),
            final(self)@ == old(self)@.after_lookup(key@, bytes_view(fields@), current),
    {
        let ghost v0 = self@;
        let i = self.find_key(&key);
        if i < self.slots.len() {
            let mut slot: Option<TrackedEntry> = None;
            self.slots.set_and_swap(i, &mut slot);
            let mut e = slot.unwrap();
            e.validated_at = current;
            self.slots.set(i, Some(e));
            self.current = current;
            assert(self@.slots =~= v0.after_lookup(key@, bytes_view(fields@), current).slots);
            proof {
                assert forall|a: int, b: int|
                    #![trigger self@.slots[a], self@.slots[b]]
                    self@.is_live(a) && self@.is_live(b) && a != b implies self@.entry(a).key
                        != self@.entry(b).key by {
                    assert(v0.is_live(a) && v0.is_live(b));
                }
            }
            i as u64
        } else {
            let mut revisions: Vec<Revision> = Vec::new();
            let n = fields.len();
            while revisions.len() < n
                invariant
                    revisions.len() <= n,
                    forall|j: int| 0 <= j < revisions.len() ==> revisions@[j] == current,
                decreases n - revisions.len(),
            {
                revisions.push(current);
            }
            let e = TrackedEntry {
                key,
                fields,
                revisions,
                created_at: current,
                validated_at: current,
                updated_at: current,
            };
            assert(e@ == fresh_entry(key@, bytes_view(fields@), current)) by {
                assert(e@.revisions =~= fresh_entry(key@, bytes_view(fields@), current).revisions);
            }
            self.slots.push(Some(e));
            self.current = current;
            assert(self@.slots =~= v0.after_lookup(key@, bytes_view(fields@), current).slots);
            proof {
                assert forall|a: int, b: int|
                    #![trigger self@.slots[a], self@.slots[b]]
                    self@.is_live(a) && self@.is_live(b) && a != b implies self@.entry(a).key
                        != self@.entry(b).key by {
                    if a < v0.slots.len() && b < v0.slots.len() {
                        assert(v0.is_live(a) && v0.is_live(b));
                    } else if a < v0.slots.len() {
                        assert(v0.is_live(a));
                    } else {
                        assert(v0.is_live(b));
                    }
                }
            }
            i as u64
        }
    }
    /// Replaces the value fields of `id` by `new_fields` in revision
    /// `current`. A field flagged for backdating whose new value equals the
    /// old one keeps its stamp; every other field is stamped with `current`.
    /// Refused for an identity that is not live, and for a second write of
    /// the same entity within one revision.
    pub fn update(&mut self, id: Id, new_fields: Vec<Vec<u8>>, current: Revision) -> (r: Result<(), TrackedError>)
        requires
            old(self)@.wf(),
            old(self)@.current <= current,
            new_fields@.len() == old(self)@.arity(),
        ensures
            final(self)@.wf(),
            r == old(self)@.update_outcome(id as int, current),
            final(self)@ == old(self)@.after_update(id as int, bytes_view(new_fields@), current),
    {
        let ghost v0 = self@;
        if id >= self.slots.len() as u64 {
            self.current = current;
            assert(self@.slots =~= v0.slots);
            return Err(TrackedError::UnknownId);
        }
        let i = id as usize;
        let written = match &self.slots[i] {
            Some(e) => e.updated_at == current,
            None => {
                self.current = current;
                assert(self@.slots =~= v0.slots);
                return Err(TrackedError::UnknownId);
            },
        };
        if written {
            self.current = current;
            assert(self@.slots =~= v0.slots);
            return Err(TrackedError::DoubleUpdate);
        }
        let ghost old_slot = self.slots@[i as int];
        let mut slot: Option<TrackedEntry> = None;
        self.slots.set_and_swap(i, &mut slot);
        let ghost emptied = self@.slots;
        let mut e = slot.unwrap();
        let ghost e0 = e@;
        assert(v0.slots[i as int] == slot_view(old_slot));
        assert(e0 == v0.entry(i as int));
        assert(v0.update_outcome(id as int, current) is Ok);
        let ghost target = backdated(e0, bytes_view(new_fields@), v0.backdate, current);
        let mut j: usize = 0;
        while j < self.backdate.len()
            invariant
                self.backdate@ == v0.backdate,
                target == backdated(e0, bytes_view(new_fields@), v0.backdate, current),
                e.key@ == e0.key,
                e.created_at == e0.created_at,
                e.validated_at == e0.validated_at,
                e.fields@.len() == v0.arity(),
                e.revisions@.len() == v0.arity(),
                new_fields@.len() == v0.arity(),
                bytes_view(e.fields@) == e0.fields,
                0 <= j <= self.backdate.len(),
                forall|k: int| 0 <= k < j ==> e.revisions@[k] == target[k],
                forall|k: int| j <= k < v0.arity() ==> e.revisions@[k] == e0.revisions[k],
            decreases self.backdate.len() - j,
        {
            let keep = self.backdate[j] && bytes_equal(&e.fields[j], &new_fields[j]);
            assert(e.fields@[j as int]@ == bytes_view(e.fields@)[j as int]);
            assert(new_fields@[j as int]@ == bytes_view(new_fields@)[j as int]);
            assert(e.fields@[j as int]@ == e0.fields[j as int]);
            assert(keep == (v0.backdate[j as int] && e0.fields[j as int] == bytes_view(new_fields@)[j as int]));
            assert(target[j as int] == (if keep { e0.revisions[j as int] } else { current }));
            let ghost before = e.revisions@;
            if !keep {
                e.revisions.set(j, current);
            }
            assert(forall|k: int| 0 <= k < v0.arity() && k != j ==> e.revisions@[k] == before[k]);
            j = j + 1;
        }
        assert(e.revisions@ =~= target);
        e.fields = new_fields;
        e.updated_at = current;
        self.slots.set(i, Some(e));
        self.current = current;
        assert(self@.slots =~= emptied.update(i as int, Some(e@)));
        assert(emptied =~= v0.slots.update(i as int, None));
        assert(self@.slots =~= v0.after_update(id as int, bytes_view(new_fields@), current).slots);
        proof {
            assert forall|a: int, b: int|
                #![trigger self@.slots[a], self@.slots[b]]
                self@.is_live(a) && self@.is_live(b) && a != b implies self@.entry(a).key
                    != self@.entry(b).key by {
                assert(v0.is_live(a) && v0.is_live(b));
            }
            assert forall|a: int, k: int|
                self@.is_live(a) && 0 <= k < self@.arity() implies #[trigger] self@.entry(a).revisions[k]
                    <= self@.current by {
                assert(v0.is_live(a));
                assert(v0.entry(a).revisions[k] <= v0.current);
            }
        }
        Ok(())
    }

    /// The stamp of value field `field` of the live entity `id`: the last
    /// revision in which that field changed.
    pub fn field_revision(&self, id: Id, field: usize) -> (r: Revision)
        requires
            self@.is_live(id as int),
            field < self@.arity(),
            self@.wf(),
        ensures
            r == self@.entry(id as int).revisions[field as int],
    {
        assert(self@.slots[id as int] == slot_view(self.slots@[id as int]));
        assert(self.slots@[id as int] is Some);
        assert(self@.slots.len() == self.slots@.len());
        assert(id < self.slots.len());
        let i = id as usize;
        let e = self.slots[i].as_ref().unwrap();
        assert(self@.slots[id as int] == Some(e@));
        e.revisions[field]
    }

    /// The value fields of the live entity `id`.
    pub fn fields(&self, id: Id) -> (r: &Vec<Vec<u8>>)
        requires
            self@.is_live(id as int),
        ensures
            bytes_view(r@) == self@.entry(id as int).fields,
    {
        assert(self@.slots[id as int] == slot_view(self.slots@[id as int]));
        assert(self.slots@[id as int] is Some);
        assert(self@.slots.len() == self.slots@.len());
        assert(id < self.slots.len());
        let i = id as usize;
        let e = self.slots[i].as_ref().unwrap();
        assert(self@.slots[id as int] == Some(e@));
        &e.fields
    }

    /// Whether `id` names a live entity.
    pub fn contains(&self, id: Id) -> (r: bool)
        ensures
            r == self@.is_live(id as int),
    {
        if id >= self.slots.len() as u64 {
            return false;
        }
        self.slots[id as usize].is_some()
    }

    /// The latest revision the store has been used in.
    pub fn current_revision(&self) -> (r: Revision)
        ensures
            r == self@.current,
    {
        self.current
    }

    /// Removes every entity that has not been revalidated in `since` or
    /// later. Its identity is never handed out again.
    pub fn sweep(&mut self, since: Revision)
        requires
            old(self)@.wf(),
        ensures
            final(self)@.wf(),
            final(self)@ == old(self)@.after_sweep(since),
    {
        let ghost v0 = self@;
        let mut i: usize = 0;
        while i < self.slots.len()
            invariant
                self.backdate@ == v0.backdate,
                self.current == v0.current,
                self.slots@.len() == v0.slots.len(),
                0 <= i <= self.slots.len(),
                forall|k: int| 0 <= k < i ==> #[trigger] self@.slots[k] == v0.after_sweep(since).slots[k],
                forall|k: int| i <= k < v0.slots.len() ==> #[trigger] self@.slots[k] == v0.slots[k],
            decreases self.slots.len() - i,
        {
            let stale = match &self.slots[i] {
                Some(e) => e.validated_at < since,
                None => false,
            };
            assert(self@.slots[i as int] == v0.slots[i as int]);
            assert(self@.slots[i as int] == slot_view(self.slots@[i as int]));
            let ghost before = self@.slots;
            if stale {
                self.slots.set(i, None);
                assert(self@.slots =~= before.update(i as int, None));
            }
            i = i + 1;
        }
        assert(self@.slots =~= v0.after_sweep(since).slots);
        proof {
            assert forall|a: int, b: int|
                #![trigger self@.slots[a], self@.slots[b]]
                self@.is_live(a) && self@.is_live(b) && a != b implies self@.entry(a).key
                    != self@.entry(b).key by {
                assert(v0.is_live(a) && v0.is_live(b));
            }
            assert forall|a: int, k: int|
                self@.is_live(a) && 0 <= k < self@.arity() implies #[trigger] self@.entry(a).revisions[k]
                    <= self@.current by {
                assert(v0.is_live(a));
            }
        }
    }
}

/// Identity stability: looking a key up again, after it was looked up or
/// created, returns the same identity, whatever fields the second call
/// carries and in whichever later revision it comes.
pub proof fn lemma_lookup_stable(v: TrackedView, key: Seq<u8>, fields: Seq<Seq<u8>>, cur: Revision)
    requires
        v.wf(),
        v.current <= cur,
        fields.len() == v.arity(),
    ensures
        ({
            let v1 = v.after_lookup(key, fields, cur);
            &&& v1.is_live(v.key_index(key))
            &&& v1.key_index(key) == v.key_index(key)
        }),
{
    let i = v.key_index(key);
    let v1 = v.after_lookup(key, fields, cur);
    if i < v.slots.len() {
        assert(v.is_live(i) && v.entry(i).key == key);
    }
    assert(v1.keys_unique()) by {
        assert forall|a: int, b: int|
            #![trigger v1.slots[a], v1.slots[b]]
            v1.is_live(a) && v1.is_live(b) && a != b implies v1.entry(a).key != v1.entry(b).key by {
            if a != i && b != i {
                assert(v.is_live(a) && v.is_live(b));
            } else if a == i {
                assert(v.is_live(b) && v.entry(b).key != key);
            } else {
                assert(v.is_live(a));
                if i < v.slots.len() {
                    assert(v.slots[i] is Some && v.slots[a] is Some);
                } else {
                    assert(!(v.is_live(a) && v.entry(a).key == key));
                }
            }
        }
    }
    lemma_key_index_unique(v1, key, i);
}

/// An update, refused or not, keeps every identity that a key names.
pub proof fn lemma_update_keeps_identity(
    v: TrackedView,
    key: Seq<u8>,
    id: int,
    new_fields: Seq<Seq<u8>>,
    cur: Revision,
)
    requires
        v.wf(),
        v.is_live(v.key_index(key)),
    ensures
        v.after_update(id, new_fields, cur).key_index(key) == v.key_index(key),
{
    let i = v.key_index(key);
    let v1 = v.after_update(id, new_fields, cur);
    assert(v.entry(i).key == key);
    assert(v1.keys_unique()) by {
        assert forall|a: int, b: int|
            #![trigger v1.slots[a], v1.slots[b]]
            v1.is_live(a) && v1.is_live(b) && a != b implies v1.entry(a).key != v1.entry(b).key by {
            assert(v.is_live(a) && v.is_live(b));
        }
    }
    lemma_key_index_unique(v1, key, i);
}

/// A sweep keeps the identity of an entity revalidated in `since` or later.
pub proof fn lemma_sweep_keeps_identity(v: TrackedView, key: Seq<u8>, since: Revision)
    requires
        v.wf(),
        v.is_live(v.key_index(key)),
        since <= v.entry(v.key_index(key)).validated_at,
    ensures
        v.after_sweep(since).key_index(key) == v.key_index(key),
{
    let i = v.key_index(key);
    let v1 = v.after_sweep(since);
    assert(v.entry(i).key == key);
    assert(v1.slots[i] == v.slots[i]);
    assert(v1.keys_unique()) by {
        assert forall|a: int, b: int|
            #![trigger v1.slots[a], v1.slots[b]]
            v1.is_live(a) && v1.is_live(b) && a != b implies v1.entry(a).key != v1.entry(b).key by {
            assert(v1.slots[a] == v.slots[a] && v1.slots[b] == v.slots[b]);
            assert(v.is_live(a) && v.is_live(b));
        }
    }
    lemma_key_index_unique(v1, key, i);
}

/// Backdating: an update replaces the value fields; a backdated field whose
/// new value equals the old one keeps its stamp, and a field whose value
/// changed, or that is not backdated, is stamped with the current revision.
pub proof fn lemma_backdating(v: TrackedView, id: int, new_fields: Seq<Seq<u8>>, cur: Revision)
    requires
        v.wf(),
        v.update_outcome(id, cur) is Ok,
        new_fields.len() == v.arity(),
    ensures
        ({
            let e0 = v.entry(id);
            let e1 = v.after_update(id, new_fields, cur).entry(id);
            &&& e1.fields == new_fields
            &&& e1.key == e0.key
            &&& forall|j: int|
                0 <= j < v.arity() ==> {
                    &&& (v.backdate[j] && new_fields[j] == e0.fields[j]) ==> #[trigger] e1.revisions[j]
                        == e0.revisions[j]
                    &&& (new_fields[j] != e0.fields[j] || !v.backdate[j]) ==> e1.revisions[j] == cur
                }
        }),
{
}

/// Exclusivity: once an entity was written in a revision, a second update of
/// it in that revision is refused.
pub proof fn lemma_second_update_refused(
    v: TrackedView,
    id: int,
    first: Seq<Seq<u8>>,
    second: Seq<Seq<u8>>,
    cur: Revision,
)
    requires
        v.wf(),
        v.update_outcome(id, cur) is Ok,
    ensures
        v.after_update(id, first, cur).update_outcome(id, cur) == Err::<(), TrackedError>(
            TrackedError::DoubleUpdate,
        ),
{
}

/// Reclamation: once an entity that was not revalidated in `since` or later
/// is swept, its key no longer names it: the next lookup of that key
/// allocates an identity that was never handed out.
pub proof fn lemma_sweep_reclaims(v: TrackedView, key: Seq<u8>, since: Revision)
    requires
        v.wf(),
        v.is_live(v.key_index(key)),
        v.entry(v.key_index(key)).validated_at < since,
    ensures
        ({
            let v1 = v.after_sweep(since);
            &&& !v1.is_live(v.key_index(key))
            &&& v1.key_index(key) == v.slots.len()
            &&& v.key_index(key) < v1.key_index(key)
        }),
{
    let i = v.key_index(key);
    let v1 = v.after_sweep(since);
    assert(v.entry(i).key == key);
    if exists|a: int| v1.is_live(a) && v1.entry(a).key == key {
        let a = choose|a: int| v1.is_live(a) && v1.entry(a).key == key;
        assert(v1.slots[a] == v.slots[a]);
        assert(v.is_live(a));
        assert(v.slots[i] is Some);
    }
}

} // verus!
