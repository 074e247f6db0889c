//! The history of what was done: events, each linked to the one before and
//! the one after, kept so that a run can be followed and undone.

use vstd::prelude::*;
use std::hash::{BuildHasher, BuildHasherDefault, DefaultHasher};
use uuid::Uuid;
use crate::templates::lookup;
use crate::text::copy_str;

verus! {

/// One recorded event: its id, when it happened, the events before and
/// after it, and its fields.
#[derive(Debug, PartialEq, Eq)]
pub struct Event {
    pub id: i32,
    pub timestamp: String,
    pub next_event_id: Option<i32>,
    pub last_event_id: Option<i32>,
    pub data: Vec<(String, String)>,
}

/// The recorded events, in the order they were recorded, and the file they
/// are kept in.
#[derive(Debug)]
pub struct Database {
    pub path: String,
    pub data: Vec<Event>,
}

/// The position of the first event with the id.
pub open spec fn index_of(events: Seq<Event>, id: i32) -> Option<int>
    decreases events.len(),
{
    if events.len() == 0 {
        None
    } else {
        match index_of(events.drop_last(), id) {
            Some(i) => Some(i),
            None => if events.last().id == id { Some(events.len() - 1) } else { None },
        }
    }
}

/// The event recorded after the event `id`, found by its id.
pub open spec fn next_event(events: Seq<Event>, id: i32) -> Option<Event> {
    match index_of(events, id) {
        Some(i) => match events[i].next_event_id {
            Some(n) => match index_of(events, n) {
                Some(j) => Some(events[j]),
                None => None,
            },
            None => None,
        },
        None => None,
    }
}

pub proof fn lemma_index_of_bounds(events: Seq<Event>, id: i32)
    ensures
        index_of(events, id) matches Some(i) ==> 0 <= i < events.len() && events[i].id == id
            && forall|j: int| 0 <= j < i ==> (#[trigger] events[j]).id != id,
        index_of(events, id) is None ==> forall|j: int| 0 <= j < events.len() ==> (#[trigger] events[j]).id != id,
    decreases events.len(),
{
    if events.len() > 0 {
        lemma_index_of_bounds(events.drop_last(), id);
        assert forall|j: int| 0 <= j < events.len() - 1 implies #[trigger] events[j] == events.drop_last()[j] by {}
    }
}

/// Events with the same ids in the same places are found at the same places.
proof fn lemma_index_of_same_ids(a: Seq<Event>, b: Seq<Event>, id: i32)
    requires
        a.len() == b.len(),
        forall|j: int| 0 <= j < a.len() ==> (#[trigger] a[j]).id == b[j].id,
    ensures
        index_of(a, id) == index_of(b, id),
    decreases a.len(),
{
    if a.len() > 0 {
        assert forall|j: int| 0 <= j < a.len() - 1 implies (#[trigger] a.drop_last()[j]).id == b.drop_last()[j].id by {
            assert(a.drop_last()[j] == a[j]);
            assert(b.drop_last()[j] == b[j]);
        }
        lemma_index_of_same_ids(a.drop_last(), b.drop_last(), id);
    }
}

/// `after` is `before` with the event `e` recorded after the event `last`:
/// that event now names `e` as its successor, and `e` comes last.
pub open spec fn recorded(before: Seq<Event>, after: Seq<Event>, last: Option<i32>, e: Event) -> bool {
    &&& after.len() == before.len() + 1
    &&& after.last() == e
    &&& e.last_event_id == last
    &&& e.next_event_id is None
    &&& forall|j: int| 0 <= j < before.len() ==> (#[trigger] after[j]).id == before[j].id
    &&& forall|j: int| 0 <= j < before.len() && !(last matches Some(l) && index_of(before, l) == Some(j))
        ==> #[trigger] after[j] == before[j]
    &&& last matches Some(l) ==> (index_of(before, l) matches Some(i) && after[i].next_event_id == Some(e.id)
        && after[i].timestamp == before[i].timestamp && after[i].last_event_id == before[i].last_event_id
        && after[i].data == before[i].data)
}

/// A universally unique identifier of the `uuid` crate.
#[verifier::external_type_specification]
#[verifier::external_body]
pub struct ExUuid(Uuid);

/// `uuid::Uuid::new_v4`: a fresh random version 4 UUID. Nothing is stated
/// of which one comes out.
#[verifier::external_body]
fn new_uuid() -> (r: Uuid)
{
    Uuid::new_v4()
}

/// `BuildHasher::hash_one` with the standard hasher: the hash of the UUID,
/// as `DefaultHasher::new`, `hash` and `finish` give it. The standard hasher
/// may change between releases of Rust, so nothing is stated of the value.
#[verifier::external_body]
fn hash_uuid(u: &Uuid) -> (r: u64)
{
    BuildHasherDefault::<DefaultHasher>::default().hash_one(u)
}

/// The current time in UTC, as `chrono` writes it.
#[verifier::external_body]
fn now_text() -> (r: String)
{
    chrono::Utc::now().to_string()
}

impl Event {
    /// The id that a hash gives: the hash brought below `i32::MAX`.
    pub fn id_from_hash(hash: u64) -> (id: i32)
        ensures
            id == hash % (i32::MAX as u64),
    {
        let m: u64 = 2147483647;
        let r = hash % m;
        r as i32
    }

    /// A new id: a random number below `i32::MAX`, from the hash of a fresh
    /// random UUID; any number in that range can come out.
    pub fn get_id() -> (id: i32)
        ensures
            0 <= id < i32::MAX,
    {
        let u = new_uuid();
        let hash = hash_uuid(&u);
        Self::id_from_hash(hash)
    }

    /// A new event with the given fields, after the event `last_event`, with
    /// a new id and the current time.
    pub fn from_value(data: Vec<(String, String)>, last_event: Option<i32>) -> (e: Event)
        ensures
            e.data@ == data@,
            e.last_event_id == last_event,
            e.next_event_id is None,
            0 <= e.id < i32::MAX,
    {
        Event { id: Self::get_id(), timestamp: now_text(), next_event_id: None, last_event_id: last_event, data }
    }

    /// A copy of the event.
    pub fn copy(&self) -> (e: Event)
        ensures
            e.id == self.id,
            e.timestamp@ == self.timestamp@,
            e.next_event_id == self.next_event_id,
            e.last_event_id == self.last_event_id,
            e.data@.len() == self.data@.len(),
            forall|k: Seq<char>| lookup(e.data@, k) == lookup(self.data@, k),
    {
        let mut fields: Vec<(String, String)> = Vec::new();
        let mut i: usize = 0;
        while i < self.data.len()
            invariant
                i <= self.data@.len(),
                fields@.len() == i,
                forall|j: int| 0 <= j < i ==> (#[trigger] fields@[j]).0@ == self.data@[j].0@ && fields@[j].1@ == self.data@[j].1@,
            decreases self.data@.len() - i,
        {
            fields.push((copy_str(self.data[i].0.as_str()), copy_str(self.data[i].1.as_str())));
            i = i + 1;
        }
        proof {
            crate::templates::lemma_lookup_same(fields@, self.data@);
        }
        Event {
            id: self.id,
            timestamp: copy_str(self.timestamp.as_str()),
            next_event_id: self.next_event_id,
            last_event_id: self.last_event_id,
            data: fields,
        }
    }
}

impl Database {
    /// A database over the recorded events, kept at `path`.
    pub fn new(path: &str, data: Vec<Event>) -> (db: Database)
        ensures
            db.path@ == path@,
            db.data@ == data@,
    {
        Database { path: copy_str(path), data }
    }

    /// The position of the first event with the id.
    pub fn find_event_index_by_id(&self, id: i32) -> (r: Option<usize>)
        ensures
            match r {
                Some(i) => index_of(self.data@, id) == Some(i as int),
                None => index_of(self.data@, id) is None,
            },
    {
        let mut i: usize = 0;
        while i < self.data.len()
            invariant
                i <= self.data@.len(),
                forall|j: int| 0 <= j < i ==> (#[trigger] self.data@[j]).id != id,
            decreases self.data@.len() - i,
        {
            if self.data[i].id == id {
                proof {
                    lemma_index_of_bounds(self.data@, id);
                    lemma_first_index(self.data@, id, i as int);
                }
                return Some(i);
            }
            i = i + 1;
        }
        proof {
            lemma_index_of_bounds(self.data@, id);
        }
        None
    }

    /// Records a new event with the given fields after the event
    /// `last_event_id`, which must be recorded, and gives its id.
    pub fn insert(&mut self, entry: Vec<(String, String)>, last_event_id: Option<i32>) -> (id: i32)
        requires
            last_event_id matches Some(l) ==> index_of(old(self).data@, l) is Some,
        ensures
            0 <= id < i32::MAX,
            final(self).path@ == old(self).path@,
            final(self).data@.last().id == id,
            final(self).data@.last().data@ == entry@,
            recorded(old(self).data@, final(self).data@, last_event_id, final(self).data@.last()),
    {
        let event = Event::from_value(entry, last_event_id);
        let ghost before = self.data@;
        match last_event_id {
            Some(l) => {
                let idx = match self.find_event_index_by_id(l) {
                    Some(i) => i,
                    None => {
                        assert(false);
                        0
                    }
                };
                proof {
                    lemma_index_of_bounds(before, l);
                }
                let old_event = self.data.remove(idx);
                let updated = Event {
                    id: old_event.id,
                    timestamp: old_event.timestamp,
                    next_event_id: Some(event.id),
                    last_event_id: old_event.last_event_id,
                    data: old_event.data,
                };
                self.data.insert(idx, updated);
                proof {
                    assert forall|j: int| 0 <= j < before.len() && j != idx implies #[trigger] self.data@[j] == before[j] by {
                        if j < idx {
                        } else {
                        }
                    }
                }
            }
            None => {}
        }
        let ghost mid = self.data@;
        let id = event.id;
        self.data.push(event);
        proof {
            assert forall|j: int| 0 <= j < before.len() implies (#[trigger] self.data@[j]).id == before[j].id by {
                assert(self.data@[j] == mid[j]);
            }
            assert forall|j: int| 0 <= j < before.len() && !(last_event_id matches Some(l) && index_of(before, l) == Some(j))
                implies #[trigger] self.data@[j] == before[j] by {
                assert(self.data@[j] == mid[j]);
            }
        }
        id
    }

    /// Forgets the event with the id, if one is recorded.
    pub fn drop(&mut self, id: i32)
        ensures
            final(self).path@ == old(self).path@,
            match index_of(old(self).data@, id) {
                Some(i) => final(self).data@ == old(self).data@.remove(i),
                None => final(self).data@ == old(self).data@,
            },
    {
        match self.find_event_index_by_id(id) {
            Some(i) => {
                proof {
                    lemma_index_of_bounds(self.data@, id);
                }
                self.data.remove(i);
            }
            None => {}
        }
    }

    /// The event recorded after the event `current_event_id`.
    pub fn get_next_event(&self, current_event_id: i32) -> (r: Option<&Event>)
        ensures
            match r {
                Some(e) => next_event(self.data@, current_event_id) == Some(*e),
                None => next_event(self.data@, current_event_id) is None,
            },
    {
        let i = self.find_event_index_by_id(current_event_id)?;
        proof {
            lemma_index_of_bounds(self.data@, current_event_id);
        }
        let next = self.data[i].next_event_id?;
        let j = self.find_event_index_by_id(next)?;
        proof {
            lemma_index_of_bounds(self.data@, next);
        }
        Some(&self.data[j])
    }

    /// Records where the event's file was backed up: its `backup` field is
    /// set to `path`; nothing changes when no event has the id.
    pub fn add_backup_path(&mut self, id: i32, path: &str)
        ensures
            final(self).path@ == old(self).path@,
            final(self).data@.len() == old(self).data@.len(),
            match index_of(old(self).data@, id) {
                Some(i) => {
                    &&& forall|j: int| 0 <= j < old(self).data@.len() && j != i ==> #[trigger] final(self).data@[j] == old(self).data@[j]
                    &&& final(self).data@[i].id == old(self).data@[i].id
                    &&& final(self).data@[i].next_event_id == old(self).data@[i].next_event_id
                    &&& final(self).data@[i].last_event_id == old(self).data@[i].last_event_id
                    &&& lookup(final(self).data@[i].data@, "backup"@) == Some(path@)
                    &&& forall|k: Seq<char>| k != "backup"@ ==>
                        lookup(#[trigger] final(self).data@[i].data@, k) == lookup(old(self).data@[i].data@, k)
                },
                None => final(self).data@ == old(self).data@,
            },
    {
        match self.find_event_index_by_id(id) {
            Some(i) => {
                proof {
                    lemma_index_of_bounds(self.data@, id);
                }
                let ghost before = self.data@;
                let e = self.data.remove(i);
                let mut ctx = crate::templates::Context { entries: e.data };
                ctx.insert("backup", path);
                let updated = Event {
                    id: e.id,
                    timestamp: e.timestamp,
                    next_event_id: e.next_event_id,
                    last_event_id: e.last_event_id,
                    data: ctx.entries,
                };
                self.data.insert(i, updated);
                proof {
                    assert forall|j: int| 0 <= j < before.len() && j != i implies #[trigger] self.data@[j] == before[j] by {
                        if j < i {
                        } else {
                        }
                    }
                }
            }
            None => {}
        }
    }
}

proof fn lemma_first_index(events: Seq<Event>, id: i32, i: int)
    requires
        0 <= i < events.len(),
        events[i].id == id,
        forall|j: int| 0 <= j < i ==> (#[trigger] events[j]).id != id,
    ensures
        index_of(events, id) == Some(i),
    decreases events.len(),
{
    lemma_index_of_bounds(events, id);
    if i < events.len() - 1 {
        assert forall|j: int| 0 <= j < i implies (#[trigger] events.drop_last()[j]).id != id by {
            assert(events.drop_last()[j] == events[j]);
        }
        assert(events.drop_last()[i] == events[i]);
        lemma_first_index(events.drop_last(), id, i);
    }
}

/// Recording an event after an event links the two: the event that came
/// before names the new one as the one after it, as long as no event with
/// the new id was recorded before.
pub proof fn law_insert_links(before: Seq<Event>, after: Seq<Event>, last: i32, e: Event)
    requires
        recorded(before, after, Some(last), e),
        index_of(before, e.id) is None,
    ensures
        next_event(after, last) == Some(e),
{
    let i = index_of(before, last)->Some_0;
    lemma_index_of_bounds(before, last);
    lemma_index_of_bounds(before, e.id);
    let prefix = after.drop_last();
    assert forall|j: int| 0 <= j < prefix.len() implies (#[trigger] prefix[j]).id == before[j].id by {
        assert(prefix[j] == after[j]);
    }
    lemma_index_of_same_ids(prefix, before, last);
    lemma_index_of_same_ids(prefix, before, e.id);
    assert(after.drop_last() == prefix);
    assert(index_of(after, last) == Some(i));
    assert(index_of(after, e.id) == Some(before.len() as int));
}

} // verus!
