//! Operations driven by incoming requests, with their own validation.

use vstd::prelude::*;
use crate::models::{Participant, ParticipantRequest, Room, RoomRequest, RoundResponse, SlamError};
use crate::store::{has_key, key_index, Store};
use super::rooms::{insert_room, room_added};
use super::participants::{insert_participant, name_taken, participant_added};
use super::reads::{lookup_room, retrieve_room, retrieve_round, round_detail};

verus! {

/// Creates a room from a request, which must name it.
///
/// Fails with `Validation`, changing nothing, when the name is missing, and
/// otherwise as `insert_room` does.
pub fn create_room(store: &mut Store, request: RoomRequest) -> (r: Result<Room, SlamError>)
    requires
        old(store).wf(),
    ensures
        final(store).wf(),
        match request.name {
            Some(name) => match r {
                Ok(room) => room_added(*old(store), *final(store), room, name@),
                Err(e) => e == SlamError::Store && *final(store) == *old(store) && exists|i: int|
                    0 <= i < old(store).rooms@.len() && #[trigger] old(store).rooms@[i].id@.len()
                        == 36,
            },
            None => r == Err::<Room, SlamError>(SlamError::Validation) && *final(store) == *old(store),
        },
{
    match request.name {
        Some(name) => insert_room(store, name.as_str()),
        None => Err(SlamError::Validation),
    }
}

/// Creates a participant from a request, which must give its name and its
/// room.
///
/// Fails with `Validation`, changing nothing, when either is missing, and
/// otherwise as `insert_participant` does.
pub fn create_participant(store: &mut Store, request: ParticipantRequest) -> (r: Result<
    Participant,
    SlamError,
>)
    requires
        old(store).wf(),
    ensures
        final(store).wf(),
        match (request.name, request.room_id) {
            (Some(name), Some(room)) => match r {
                Ok(p) => participant_added(
                    *old(store),
                    *final(store),
                    p,
                    name@,
                    request.pronouns,
                    room@,
                ),
                Err(e) => *final(store) == *old(store) && if name_taken(
                    old(store).participants@,
                    name@,
                ) {
                    e == SlamError::Conflict
                } else if !has_key(old(store).rooms@, room@) {
                    e == SlamError::NotFound
                } else {
                    e == SlamError::Store && exists|i: int|
                        0 <= i < old(store).participants@.len()
                            && #[trigger] old(store).participants@[i].id@.len() == 36
                },
            },
            _ => r == Err::<Participant, SlamError>(SlamError::Validation) && *final(store)
                == *old(store),
        },
{
    match (request.name, request.room_id) {
        (Some(name), Some(room)) => insert_participant(
            store,
            name.as_str(),
            request.pronouns,
            room.as_str(),
        ),
        _ => Err(SlamError::Validation),
    }
}

/// The current round of room `room_id_parameter`, with its performances (as
/// `retrieve_round` gives them).
///
/// Fails with `NotFound` when there is no such room or its current round is
/// not stored, and with `NoCurrentRound` when the room has not opened a round.
pub fn retrieve_current_round(store: &Store, room_id_parameter: &str) -> (r: Result<
    RoundResponse,
    SlamError,
>)
    requires
        store.wf(),
    ensures
        match lookup_room(store, room_id_parameter@) {
            None => r == Err::<RoundResponse, SlamError>(SlamError::NotFound),
            Some(room) => match room.round_id_current {
                None => r == Err::<RoundResponse, SlamError>(SlamError::NoCurrentRound),
                Some(rid) => match r {
                    Ok(resp) => has_key(store.rounds@, rid@) && resp.round
                        == store.rounds@[key_index(store.rounds@, rid@)] && round_detail(
                        resp.participations@,
                        *store,
                        rid@,
                    ),
                    Err(e) => e == SlamError::NotFound && !has_key(store.rounds@, rid@),
                },
            },
        },
{
    let room = retrieve_room(store, room_id_parameter)?;
    match room.room.round_id_current {
        Some(rid) => retrieve_round(store, rid.as_str()),
        None => Err(SlamError::NoCurrentRound),
    }
}

} // verus!
