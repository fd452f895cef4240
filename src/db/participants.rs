//! Registering, changing and removing participants.

use vstd::prelude::*;
use crate::ids::new_id;
use crate::models::{Participant, ParticipantUpdate, SlamError};
use crate::store::{
    find_index,
    has_key,
    key_differs,
    key_index,
    lemma_filter_unique,
    lemma_lookup_at,
    lemma_push_unique,
    lemma_update_unique,
    without_key,
    Record,
    Store,
};

verus! {

/// Some participant, in any room, has the name.
pub open spec fn name_taken(ps: Seq<Participant>, name: Seq<char>) -> bool {
    exists|i: int| 0 <= i < ps.len() && #[trigger] ps[i].name@ == name
}

/// `after` is `before` with the new participant `p`, named `name` (a name
/// no participant had), with pronouns `pronouns`, in the stored room `room`,
/// under an id of its own.
pub open spec fn participant_added(
    before: Store,
    after: Store,
    p: Participant,
    name: Seq<char>,
    pronouns: Option<String>,
    room: Seq<char>,
) -> bool {
    &&& !name_taken(before.participants@, name)
    &&& has_key(before.rooms@, room)
    &&& p.name@ == name
    &&& p.pronouns == pronouns
    &&& p.room_id@ == room
    &&& p.id@.len() > 0
    &&& !has_key(before.participants@, p.id@)
    &&& after.participants@ == before.participants@.push(p)
    &&& after.rooms@ == before.rooms@
    &&& after.rounds@ == before.rounds@
    &&& after.participations@ == before.participations@
    &&& after.scores@ == before.scores@
}

/// Whether some participant has the name.
fn has_name(ps: &Vec<Participant>, name: &String) -> (r: bool)
    ensures
        r == name_taken(ps@, name@),
{
    let mut i: usize = 0;
    while i < ps.len()
        invariant
            0 <= i <= ps@.len(),
            forall|k: int| 0 <= k < i ==> #[trigger] ps@[k].name@ != name@,
        decreases ps@.len() - i,
    {
        if ps[i].name.eq(name) {
            return true;
        }
        i = i + 1;
    }
    false
}

/// Stores a new participant of room `room_id_value` under the id `id`.
/// Participant names are unique over the whole store, not per room.
///
/// Fails, changing nothing, with `Conflict` when a participant already has
/// the name; otherwise with `NotFound` when there is no such room; otherwise
/// with `Validation` when the id is empty, and with `Store` when it is
/// already in use.
pub fn add_participant(
    store: &mut Store,
    id: String,
    name_value: &str,
    pronouns_value: Option<String>,
    room_id_value: &str,
) -> (r: Result<Participant, SlamError>)
    requires
        old(store).wf(),
    ensures
        final(store).wf(),
        match r {
            Ok(p) => p.id == id && participant_added(
                *old(store),
                *final(store),
                p,
                name_value@,
                pronouns_value,
                room_id_value@,
            ),
            Err(e) => *final(store) == *old(store) && if name_taken(
                old(store).participants@,
                name_value@,
            ) {
                e == SlamError::Conflict
            } else if !has_key(old(store).rooms@, room_id_value@) {
                e == SlamError::NotFound
            } else if id@.len() == 0 {
                e == SlamError::Validation
            } else {
                e == SlamError::Store && has_key(old(store).participants@, id@)
            },
        },
        !name_taken(old(store).participants@, name_value@) && has_key(
            old(store).rooms@,
            room_id_value@,
        ) && id@.len() > 0 && !has_key(old(store).participants@, id@) ==> r is Ok,
{
    let name = name_value.to_owned();
    if has_name(&store.participants, &name) {
        return Err(SlamError::Conflict);
    }
    let room = room_id_value.to_owned();
    if find_index(&store.rooms, &room).is_none() {
        return Err(SlamError::NotFound);
    }
    if id.as_str().is_empty() {
        return Err(SlamError::Validation);
    }
    if find_index(&store.participants, &id).is_some() {
        return Err(SlamError::Store);
    }
    let p = Participant { id: id, name: name, pronouns: pronouns_value, room_id: room };
    let result = p.duplicate();
    proof {
        lemma_push_unique(store.participants@, p);
    }
    store.participants.push(p);
    Ok(result)
}

/// Stores a new participant of room `room_id_value` under a freshly drawn
/// id. Returns the new participant.
///
/// Fails, changing nothing, with `Conflict` when a participant (of any room)
/// already has the name; otherwise with `NotFound` when there is no such
/// room; otherwise with `Store` when the drawn id is already in use, which
/// needs a participant with a 36-character id, the length of every drawn id.
pub fn insert_participant(
    store: &mut Store,
    name_value: &str,
    pronouns_value: Option<String>,
    room_id_value: &str,
) -> (r: Result<Participant, SlamError>)
    requires
        old(store).wf(),
    ensures
        final(store).wf(),
        match r {
            Ok(p) => participant_added(
                *old(store),
                *final(store),
                p,
                name_value@,
                pronouns_value,
                room_id_value@,
            ),
            Err(e) => *final(store) == *old(store) && if name_taken(
                old(store).participants@,
                name_value@,
            ) {
                e == SlamError::Conflict
            } else if !has_key(old(store).rooms@, room_id_value@) {
                e == SlamError::NotFound
            } else {
                e == SlamError::Store && exists|i: int|
                    0 <= i < old(store).participants@.len()
                        && #[trigger] old(store).participants@[i].id@.len() == 36
            },
        },
{
    let ghost before = *store;
    let id = new_id();
    let ghost drawn = id@;
    let r = add_participant(store, id, name_value, pronouns_value, room_id_value);
    proof {
        if r is Err && !name_taken(before.participants@, name_value@) && has_key(
            before.rooms@,
            room_id_value@,
        ) {
            let i = choose|i: int|
                0 <= i < before.participants@.len() && #[trigger] before.participants@[i].key() == drawn;
            assert(before.participants@[i].id@.len() == 36);
        }
    }
    r
}

/// Changes the name and pronouns of participant `id_value` that are present.
/// The name is not checked against other participants. Returns the number of
/// participants found: 1, or 0 when there is no such participant.
pub fn update_participant(
    store: &mut Store,
    id_value: String,
    name_value: Option<String>,
    pronouns_value: Option<String>,
) -> (r: usize)
    requires
        old(store).wf(),
    ensures
        final(store).wf(),
        r == if has_key(old(store).participants@, id_value@) { 1usize } else { 0usize },
        final(store).participants@ == if has_key(old(store).participants@, id_value@) {
            let k = key_index(old(store).participants@, id_value@);
            old(store).participants@.update(
                k,
                ParticipantUpdate { name: name_value, pronouns: pronouns_value }.applied(
                    old(store).participants@[k],
                ),
            )
        } else {
            old(store).participants@
        },
        final(store).rooms@ == old(store).rooms@,
        final(store).rounds@ == old(store).rounds@,
        final(store).participations@ == old(store).participations@,
        final(store).scores@ == old(store).scores@,
{
    let change = ParticipantUpdate { name: name_value, pronouns: pronouns_value };
    match find_index(&store.participants, &id_value) {
        Some(k) => {
            proof {
                lemma_lookup_at(store.participants@, k as int);
            }
            let updated = change.apply(&store.participants[k]);
            proof {
                lemma_update_unique(store.participants@, k as int, updated);
            }
            store.participants.set(k, updated);
            1
        },
        None => 0,
    }
}

/// Removes participant `id_value` alone; performances that refer to it stay.
/// Returns the number removed: 1, or 0 when there is no such participant.
pub fn remove_participant(store: &mut Store, id_value: String) -> (r: usize)
    requires
        old(store).wf(),
    ensures
        final(store).wf(),
        r == if has_key(old(store).participants@, id_value@) { 1usize } else { 0usize },
        final(store).participants@ == old(store).participants@.filter(key_differs(id_value@)),
        final(store).rooms@ == old(store).rooms@,
        final(store).rounds@ == old(store).rounds@,
        final(store).participations@ == old(store).participations@,
        final(store).scores@ == old(store).scores@,
{
    let found = find_index(&store.participants, &id_value).is_some();
    let participants = without_key(&store.participants, &id_value);
    proof {
        lemma_filter_unique(store.participants@, key_differs(id_value@));
    }
    store.participants = participants;
    if found {
        1
    } else {
        0
    }
}

} // verus!
