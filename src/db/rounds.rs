//! Advancing a room to its next round.

use vstd::prelude::*;
use crate::ids::new_id;
use crate::models::{copy_text, Participant, Participation, Room, Round, SlamError};
use crate::store::{
    find_index, has_key, key_index, keys_unique, lemma_lookup_at, orders_distinct, Record, Store,
};

verus! {

/// The round numbers of a room, in the order its rounds were stored.
pub open spec fn room_round_numbers(rounds: Seq<Round>, room: Seq<char>) -> Seq<int>
    decreases rounds.len(),
{
    if rounds.len() == 0 {
        Seq::empty()
    } else {
        let before = room_round_numbers(rounds.drop_last(), room);
        if rounds.last().room_id@ == room {
            before.push(rounds.last().round_number as int)
        } else {
            before
        }
    }
}

/// The largest of some numbers, or 0 when there are none.
pub open spec fn max_or_zero(ns: Seq<int>) -> int
    decreases ns.len(),
{
    if ns.len() == 0 {
        0
    } else {
        let m = max_or_zero(ns.drop_last());
        if ns.last() > m { ns.last() } else { m }
    }
}

/// The number of a room's most recent round: its highest round number, or 0
/// before its first round.
pub open spec fn latest_round_number(rounds: Seq<Round>, room: Seq<char>) -> int {
    max_or_zero(room_round_numbers(rounds, room))
}

/// The rooms, with the room `room` (if present) pointing at round `round_id`.
pub open spec fn set_current_round(rooms: Seq<Room>, room: Seq<char>, round_id: String) -> Seq<Room> {
    if has_key(rooms, room) {
        let k = key_index(rooms, room);
        rooms.update(k, Room { round_id_current: Some(round_id), ..rooms[k] })
    } else {
        rooms
    }
}

/// The performance of `participant` at position `order` of round `round_id`,
/// not yet timed or scored.
pub open spec fn new_slot(id: String, round_id: String, participant: Participant, order: int) -> Participation {
    Participation {
        id: id,
        performance_notes: None,
        performance_length_in_seconds: None,
        deduction: None,
        score: None,
        performance_order: order as i32,
        round_id: round_id,
        participant_id: participant.id,
    }
}

/// `after` is `before` advanced by one round `round` of room `room`, with
/// one performance per participant in the given order.
pub open spec fn advanced(
    before: Store,
    after: Store,
    room: Seq<char>,
    participants: Seq<Participant>,
    round: Round,
) -> bool {
    let n = before.participations@.len();
    &&& has_key(before.rooms@, room)
    &&& participants.len() <= i32::MAX
    &&& round.room_id@ == room
    &&& round.round_number == latest_round_number(before.rounds@, room) + 1
    &&& !has_key(before.rounds@, round.id@)
    &&& after.rounds@ == before.rounds@.push(round)
    &&& after.rooms@ == set_current_round(before.rooms@, room, round.id)
    &&& after.participations@.len() == n + participants.len()
    &&& after.participations@.subrange(0, n as int) == before.participations@
    &&& forall|i: int| 0 <= i < participants.len() ==> #[trigger] after.participations@[n + i]
        == new_slot(after.participations@[n + i].id, round.id, participants[i], i)
    &&& after.participants@ == before.participants@
    &&& after.scores@ == before.scores@
}

/// Whether `s` equals one of the first `upto` texts of `v`.
fn among(v: &Vec<String>, upto: usize, s: &String) -> (r: bool)
    requires
        upto <= v@.len(),
    ensures
        r == exists|j: int| 0 <= j < upto && #[trigger] v@[j]@ == s@,
{
    let mut j: usize = 0;
    while j < upto
        invariant
            upto <= v@.len(),
            0 <= j <= upto,
            forall|k: int| 0 <= k < j ==> #[trigger] v@[k]@ != s@,
        decreases upto - j,
    {
        if v[j].eq(s) {
            return true;
        }
        j = j + 1;
    }
    false
}

/// Whether the texts are distinct from each other and from every id of the
/// participations.
fn ids_fresh(table: &Vec<Participation>, ids: &Vec<String>) -> (r: bool)
    ensures
        r == ((forall|i: int| 0 <= i < ids@.len() ==> !has_key(table@, #[trigger] ids@[i]@))
            && (forall|i: int, j: int| 0 <= i < j < ids@.len() ==> #[trigger] ids@[i]@ != #[trigger] ids@[j]@)),
{
    let mut i: usize = 0;
    while i < ids.len()
        invariant
            0 <= i <= ids@.len(),
            forall|k: int| 0 <= k < i ==> !has_key(table@, #[trigger] ids@[k]@),
            forall|k: int, l: int| 0 <= k < l < i ==> #[trigger] ids@[k]@ != #[trigger] ids@[l]@,
        decreases ids@.len() - i,
    {
        if find_index(table, &ids[i]).is_some() {
            return false;
        }
        if among(ids, i, &ids[i]) {
            return false;
        }
        i = i + 1;
    }
    true
}

/// Highest round number of the room so far, or 0.
fn latest_round(rounds: &Vec<Round>, room: &String) -> (r: i32)
    ensures
        r as int == latest_round_number(rounds@, room@),
        r >= 0,
{
    let mut best: i32 = 0;
    let mut i: usize = 0;
    while i < rounds.len()
        invariant
            0 <= i <= rounds@.len(),
            best as int == latest_round_number(rounds@.take(i as int), room@),
            best >= 0,
        decreases rounds@.len() - i,
    {
        proof {
            assert(rounds@.take(i as int + 1).drop_last() =~= rounds@.take(i as int));
            let ns = room_round_numbers(rounds@.take(i as int), room@);
            assert(ns.push(rounds@[i as int].round_number as int).drop_last() =~= ns);
        }
        if rounds[i].room_id.eq(room) && rounds[i].round_number > best {
            best = rounds[i].round_number;
        }
        i = i + 1;
    }
    proof {
        assert(rounds@.take(rounds@.len() as int) =~= rounds@);
    }
    best
}

/// Opens the next round of room `room_id_parameter` under the id `round_id`,
/// with one performance per participant, in the given order, under the ids
/// `participation_ids`, and makes it the room's current round.
///
/// Fails, changing nothing, with `NotFound` when there is no such room, and
/// otherwise with `Store` when an id is already in use or repeated, or when
/// the round number or a performance order would not fit.
pub fn advance_with_ids(
    store: &mut Store,
    room_id_parameter: &str,
    participants: &Vec<Participant>,
    round_id: String,
    participation_ids: Vec<String>,
) -> (r: Result<Round, SlamError>)
    requires
        old(store).wf(),
        participation_ids@.len() == participants@.len(),
    ensures
        final(store).wf(),
        ({
            let ok = latest_round_number(old(store).rounds@, room_id_parameter@) < i32::MAX
                && participants@.len() <= i32::MAX
                && !has_key(old(store).rounds@, round_id@)
                && (forall|i: int| 0 <= i < participation_ids@.len()
                    ==> !has_key(old(store).participations@, #[trigger] participation_ids@[i]@))
                && (forall|i: int, j: int| 0 <= i < j < participation_ids@.len()
                    ==> #[trigger] participation_ids@[i]@ != #[trigger] participation_ids@[j]@);
            match r {
                Ok(round) => ok && round.id == round_id
                    && advanced(*old(store), *final(store), room_id_parameter@, participants@, round)
                    && forall|i: int| 0 <= i < participation_ids@.len() ==>
                        #[trigger] final(store).participations@[old(store).participations@.len() + i].id
                            == participation_ids@[i],
                Err(e) => *final(store) == *old(store) && if !has_key(
                    old(store).rooms@,
                    room_id_parameter@,
                ) {
                    e == SlamError::NotFound
                } else {
                    !ok && e == SlamError::Store
                },
            }
        }),
{
    let room = room_id_parameter.to_owned();
    let room_index = find_index(&store.rooms, &room);
    if room_index.is_none() {
        return Err(SlamError::NotFound);
    }
    let latest = latest_round(&store.rounds, &room);
    if latest == i32::MAX || participants.len() > i32::MAX as usize {
        return Err(SlamError::Store);
    }
    if find_index(&store.rounds, &round_id).is_some() {
        return Err(SlamError::Store);
    }
    if !ids_fresh(&store.participations, &participation_ids) {
        return Err(SlamError::Store);
    }
    let ghost before = *store;
    let round = Round { id: round_id.clone(), round_number: latest + 1, room_id: room.clone() };
    let result = round.duplicate();
    store.rounds.push(round);
    proof {
        let s = store.rounds@;
        assert(s[s.len() - 1].key() == round_id@);
        assert forall|i: int| 0 <= i < store.participations@.len() implies has_key(
            s,
            #[trigger] store.participations@[i].round_id@,
        ) by {
            let rid = store.participations@[i].round_id@;
            let j = choose|j: int| 0 <= j < before.rounds@.len() && #[trigger] before.rounds@[j].key() == rid;
            assert(s[j] == before.rounds@[j]);
        }
        assert forall|i: int, j: int| 0 <= i < j < s.len() implies #[trigger] s[i].key()
            != #[trigger] s[j].key() by {
            if j == s.len() - 1 {
                assert(before.rounds@[i].key() == s[i].key());
            } else {
                assert(before.rounds@[i] == s[i] && before.rounds@[j] == s[j]);
            }
        }
    }
    match find_index(&store.rooms, &room) {
        Some(k) => {
            proof {
                lemma_lookup_at(store.rooms@, k as int);
            }
            let current = &store.rooms[k];
            let updated = Room {
                id: current.id.clone(),
                name: current.name.clone(),
                created: current.created.clone(),
                round_id_current: Some(round_id.clone()),
                participation_id_current: copy_text(&current.participation_id_current),
            };
            store.rooms.set(k, updated);
            proof {
                let s = store.rooms@;
                assert forall|i: int, j: int| 0 <= i < j < s.len() implies #[trigger] s[i].key()
                    != #[trigger] s[j].key() by {
                    assert(s[i].key() == before.rooms@[i].key());
                    assert(s[j].key() == before.rooms@[j].key());
                }
            }
        },
        None => {},
    }
    let n = store.participations.len();
    let mut i: usize = 0;
    while i < participants.len()
        invariant
            before.wf(),
            participation_ids@.len() == participants@.len(),
            participants@.len() <= i32::MAX,
            n == before.participations@.len(),
            0 <= i <= participants@.len(),
            store.participations@.len() == n + i,
            store.participations@.subrange(0, n as int) == before.participations@,
            forall|k: int| 0 <= k < i ==> #[trigger] store.participations@[n + k]
                == new_slot(participation_ids@[k], round_id, participants@[k], k),
            forall|k: int| 0 <= k < participation_ids@.len()
                ==> !has_key(before.participations@, #[trigger] participation_ids@[k]@),
            forall|k: int, l: int| 0 <= k < l < participation_ids@.len()
                ==> #[trigger] participation_ids@[k]@ != #[trigger] participation_ids@[l]@,
            keys_unique(store.participations@),
            orders_distinct(store.participations@),
            !has_key(before.rounds@, round_id@),
            forall|k: int| 0 <= k < store.participations@.len() ==> has_key(
                store.rounds@,
                #[trigger] store.participations@[k].round_id@,
            ),
            result.id == round_id,
            store.rooms@ == set_current_round(before.rooms@, room@, round_id),
            store.rounds@ == before.rounds@.push(result),
            keys_unique(store.rooms@),
            keys_unique(store.rounds@),
            store.participants@ == before.participants@,
            store.scores@ == before.scores@,
        decreases participants@.len() - i,
    {
        let slot = Participation {
            id: participation_ids[i].clone(),
            performance_notes: None,
            performance_length_in_seconds: None,
            deduction: None,
            score: None,
            performance_order: i as i32,
            round_id: round_id.clone(),
            participant_id: participants[i].id.clone(),
        };
        let ghost prev = store.participations@;
        store.participations.push(slot);
        proof {
            let s = store.participations@;
            let rs = store.rounds@;
            assert(rs[rs.len() - 1].key() == round_id@);
            assert forall|k: int| 0 <= k < s.len() implies has_key(rs, #[trigger] s[k].round_id@) by {
                if k < prev.len() {
                    assert(s[k] == prev[k]);
                }
            }
            assert forall|a: int, b: int|
                0 <= a < b < s.len() && (#[trigger] s[a]).round_id@ == (#[trigger] s[b]).round_id@
                    implies s[a].performance_order != s[b].performance_order by {
                if b == s.len() - 1 {
                    if a < n {
                        assert(before.participations@[a] == prev.subrange(0, n as int)[a]);
                        assert(s[a] == before.participations@[a]);
                        assert(has_key(before.rounds@, before.participations@[a].round_id@));
                    } else {
                        let ka = a - n;
                        assert(s[n + ka] == new_slot(participation_ids@[ka], round_id, participants@[ka], ka));
                    }
                } else {
                    assert(s[a] == prev[a] && s[b] == prev[b]);
                }
            }
            assert(s.subrange(0, n as int) =~= prev.subrange(0, n as int));
            assert forall|k: int| 0 <= k < i + 1 implies #[trigger] s[n + k]
                == new_slot(participation_ids@[k], round_id, participants@[k], k) by {
                if k < i {
                    assert(s[n + k] == prev[n + k]);
                }
            }
            assert forall|a: int, b: int| 0 <= a < b < s.len() implies #[trigger] s[a].key()
                != #[trigger] s[b].key() by {
                if b == s.len() - 1 {
                    if a < n {
                        assert(before.participations@[a] == prev.subrange(0, n as int)[a]);
                        assert(s[a] == before.participations@[a]);
                    } else {
                        let ka = a - n;
                        assert(s[n + ka].id == participation_ids@[ka]);
                    }
                } else {
                    assert(s[a] == prev[a] && s[b] == prev[b]);
                }
            }
        }
        i = i + 1;
    }
    proof {
        let s = store.participations@;
        assert forall|k: int| 0 <= k < participants@.len() implies #[trigger] s[n + k]
            == new_slot(s[n + k].id, result.id, participants@[k], k) by {
            assert(s[n + k] == new_slot(participation_ids@[k], round_id, participants@[k], k));
        }
    }
    Ok(result)
}

/// Opens the next round of room `room_id_parameter`: its number is one more
/// than the room's highest so far (1 for the first), it holds one performance
/// per participant in the given order (the order is taken as it is, without
/// checks), and it becomes the room's current round. Returns the new round.
///
/// Fails, changing nothing, with `NotFound` when there is no such room, and
/// otherwise with `Store` when the round number or a performance order would
/// not fit, or when a drawn id is already in use or drawn twice. Every drawn
/// id has 36 characters, so with no such id in the rounds and performances
/// and at most one participant, success is certain.
pub fn create_next_round(
    store: &mut Store,
    room_id_parameter: &str,
    participants: Vec<Participant>,
) -> (r: Result<Round, SlamError>)
    requires
        old(store).wf(),
    ensures
        final(store).wf(),
        match r {
            Ok(round) => advanced(*old(store), *final(store), room_id_parameter@, participants@, round),
            Err(e) => *final(store) == *old(store) && if !has_key(
                old(store).rooms@,
                room_id_parameter@,
            ) {
                e == SlamError::NotFound
            } else {
                e == SlamError::Store
            },
        },
        has_key(old(store).rooms@, room_id_parameter@) && (latest_round_number(
            old(store).rounds@,
            room_id_parameter@,
        ) >= i32::MAX || participants@.len() > i32::MAX) ==> r is Err,
        r is Err && has_key(old(store).rooms@, room_id_parameter@) && latest_round_number(
            old(store).rounds@,
            room_id_parameter@,
        ) < i32::MAX && participants@.len() <= i32::MAX ==> participants@.len() >= 2 || (exists|
            i: int,
        | 0 <= i < old(store).rounds@.len() && #[trigger] old(store).rounds@[i].id@.len() == 36) || (
        exists|i: int|
            0 <= i < old(store).participations@.len()
                && #[trigger] old(store).participations@[i].id@.len() == 36),
{
    let ghost before = *store;
    let round_id = new_id();
    let mut ids: Vec<String> = Vec::new();
    while ids.len() < participants.len()
        invariant
            ids@.len() <= participants@.len(),
            forall|k: int| 0 <= k < ids@.len() ==> #[trigger] ids@[k]@.len() == 36,
        decreases participants@.len() - ids@.len(),
    {
        ids.push(new_id());
    }
    let ghost drawn = ids@;
    let ghost rid = round_id@;
    let r = advance_with_ids(store, room_id_parameter, &participants, round_id, ids);
    proof {
        if r is Err && has_key(before.rooms@, room_id_parameter@) && participants@.len() < 2 {
            if has_key(before.rounds@, rid) {
                let i = choose|i: int| 0 <= i < before.rounds@.len() && #[trigger] before.rounds@[i].key() == rid;
                assert(before.rounds@[i].id@.len() == 36);
            } else if exists|i: int| 0 <= i < drawn.len() && has_key(before.participations@, #[trigger] drawn[i]@) {
                let i = choose|i: int| 0 <= i < drawn.len() && has_key(before.participations@, #[trigger] drawn[i]@);
                let j = choose|j: int| 0 <= j < before.participations@.len()
                    && #[trigger] before.participations@[j].key() == drawn[i]@;
                assert(before.participations@[j].id@.len() == 36);
            }
        }
    }
    r
}

} // verus!
