//! Creating, renaming and removing rooms.

use vstd::prelude::*;
use crate::ids::{iso_date, new_id};
use crate::models::{Participant, Room, RoomUpdate, Round, SlamError};
use crate::store::{
    find_index,
    has_key,
    key_differs,
    key_index,
    lemma_filter_unique,
    lemma_lookup_at,
    lemma_push_unique,
    lemma_update_unique,
    without_key,
    Record,
    Store,
};

verus! {

/// `after` is `before` with the new room `room`, named `name`, not yet in any
/// round, stored under an id of its own.
pub open spec fn room_added(before: Store, after: Store, room: Room, name: Seq<char>) -> bool {
    &&& room.name@ == name
    &&& room.round_id_current is None
    &&& room.participation_id_current is None
    &&& room.id@.len() > 0
    &&& !has_key(before.rooms@, room.id@)
    &&& after.rooms@ == before.rooms@.push(room)
    &&& after.participants@ == before.participants@
    &&& after.rounds@ == before.rounds@
    &&& after.participations@ == before.participations@
    &&& after.scores@ == before.scores@
}

/// Stores a new room named `name_value`, created at `created`, under the id
/// `id`.
///
/// Fails with `Validation` when the id is empty, and with `Store` when it is
/// already in use; a failure changes nothing.
pub fn add_room(store: &mut Store, id: String, name_value: &str, created: String) -> (r: Result<
    Room,
    SlamError,
>)
    requires
        old(store).wf(),
    ensures
        final(store).wf(),
        match r {
            Ok(room) => room.id == id && room.created == created && room_added(
                *old(store),
                *final(store),
                room,
                name_value@,
            ),
            Err(e) => *final(store) == *old(store) && if id@.len() == 0 {
                e == SlamError::Validation
            } else {
                e == SlamError::Store && has_key(old(store).rooms@, id@)
            },
        },
        id@.len() > 0 && !has_key(old(store).rooms@, id@) ==> r is Ok,
{
    if id.as_str().is_empty() {
        return Err(SlamError::Validation);
    }
    if find_index(&store.rooms, &id).is_some() {
        return Err(SlamError::Store);
    }
    let room = Room {
        id: id,
        name: name_value.to_owned(),
        created: created,
        round_id_current: None,
        participation_id_current: None,
    };
    let result = room.duplicate();
    proof {
        lemma_push_unique(store.rooms@, room);
    }
    store.rooms.push(room);
    Ok(result)
}

/// Stores a new room named `name_value`, under a freshly drawn id and
/// stamped with the current time in RFC 3339 form. Returns the new room.
///
/// Fails with `Store`, changing nothing, when the drawn id is already in use.
/// Drawn ids have 36 characters, so where no room has such an id, success is
/// certain.
pub fn insert_room(store: &mut Store, name_value: &str) -> (r: Result<Room, SlamError>)
    requires
        old(store).wf(),
    ensures
        final(store).wf(),
        match r {
            Ok(room) => room_added(*old(store), *final(store), room, name_value@)
                && room.created@.len() >= 25,
            Err(e) => e == SlamError::Store && *final(store) == *old(store),
        },
        r is Err ==> exists|i: int|
            0 <= i < old(store).rooms@.len() && #[trigger] old(store).rooms@[i].id@.len() == 36,
{
    let ghost before = *store;
    let id = new_id();
    let ghost drawn = id@;
    let r = add_room(store, id, name_value, iso_date());
    proof {
        if r is Err {
            let i = choose|i: int| 0 <= i < before.rooms@.len() && #[trigger] before.rooms@[i].key() == drawn;
            assert(before.rooms@[i].id@.len() == 36);
        }
    }
    r
}

/// Renames room `id_value` when `name_value` is present. Returns the number
/// of rooms found: 1, or 0 when there is no such room.
pub fn update_room(store: &mut Store, id_value: String, name_value: Option<String>) -> (r: usize)
    requires
        old(store).wf(),
    ensures
        final(store).wf(),
        r == if has_key(old(store).rooms@, id_value@) { 1usize } else { 0usize },
        final(store).rooms@ == if has_key(old(store).rooms@, id_value@) {
            let k = key_index(old(store).rooms@, id_value@);
            old(store).rooms@.update(k, RoomUpdate { name: name_value }.applied(old(store).rooms@[k]))
        } else {
            old(store).rooms@
        },
        final(store).participants@ == old(store).participants@,
        final(store).rounds@ == old(store).rounds@,
        final(store).participations@ == old(store).participations@,
        final(store).scores@ == old(store).scores@,
{
    let change = RoomUpdate { name: name_value };
    match find_index(&store.rooms, &id_value) {
        Some(k) => {
            proof {
                lemma_lookup_at(store.rooms@, k as int);
            }
            let updated = change.apply(&store.rooms[k]);
            proof {
                lemma_update_unique(store.rooms@, k as int, updated);
            }
            store.rooms.set(k, updated);
            1
        },
        None => 0,
    }
}

/// Keeps the participants that do not belong to room `room`.
pub open spec fn outside_room(room: Seq<char>) -> spec_fn(Participant) -> bool {
    |p: Participant| p.room_id@ != room
}

/// Keeps the participants that belong to room `room`.
pub open spec fn inside_room(room: Seq<char>) -> spec_fn(Participant) -> bool {
    |p: Participant| p.room_id@ == room
}

/// Keeps the rounds of room `room`.
pub open spec fn round_of_room(room: Seq<char>) -> spec_fn(Round) -> bool {
    |r: Round| r.room_id@ == room
}

/// `after` is `before` without room `id` and without the participants of
/// that room; rounds, participations and scores stay as they were.
pub open spec fn room_removed(before: Store, after: Store, id: Seq<char>) -> bool {
    &&& after.rooms@ == before.rooms@.filter(key_differs(id))
    &&& after.participants@ == before.participants@.filter(outside_room(id))
    &&& after.rounds@ == before.rounds@
    &&& after.participations@ == before.participations@
    &&& after.scores@ == before.scores@
}

/// The participants that belong (`keep_members`) or do not belong to room
/// `room`, in order.
pub(crate) fn by_room(v: &Vec<Participant>, room: &String, keep_members: bool) -> (r: Vec<Participant>)
    ensures
        r@ == v@.filter(if keep_members { inside_room(room@) } else { outside_room(room@) }),
{
    let ghost f = if keep_members { inside_room(room@) } else { outside_room(room@) };
    let mut out: Vec<Participant> = Vec::new();
    let mut i: usize = 0;
    while i < v.len()
        invariant
            0 <= i <= v@.len(),
            f == (if keep_members { inside_room(room@) } else { outside_room(room@) }),
            out@ == v@.take(i as int).filter(f),
        decreases v@.len() - i,
    {
        proof {
            assert(v@.take(i as int + 1) =~= v@.take(i as int).push(v@[i as int]));
            v@.take(i as int).lemma_filter_push(v@[i as int], f);
        }
        if v[i].room_id.eq(room) == keep_members {
            out.push(v[i].duplicate());
        }
        i = i + 1;
    }
    proof {
        assert(v@.take(v@.len() as int) =~= v@);
    }
    out
}

/// Removes room `id_value` together with all the participants of that room,
/// as one change. Rounds, participations and scores that refer to the room
/// stay. Returns the number of rooms removed: 1, or 0 when there is no such
/// room.
pub fn remove_room(store: &mut Store, id_value: String) -> (r: usize)
    requires
        old(store).wf(),
    ensures
        final(store).wf(),
        r == if has_key(old(store).rooms@, id_value@) { 1usize } else { 0usize },
        room_removed(*old(store), *final(store), id_value@),
{
    let found = find_index(&store.rooms, &id_value).is_some();
    let rooms = without_key(&store.rooms, &id_value);
    let participants = by_room(&store.participants, &id_value, false);
    proof {
        lemma_filter_unique(store.rooms@, key_differs(id_value@));
        lemma_filter_unique(store.participants@, outside_room(id_value@));
    }
    store.rooms = rooms;
    store.participants = participants;
    if found {
        1
    } else {
        0
    }
}

} // verus!
