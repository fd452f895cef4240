use slam_app_rust_server::db::{
    create_next_round, create_participant, create_room, insert_room, retrieve_current_round,
};
use slam_app_rust_server::models::{ParticipantRequest, RoomRequest, SlamError};
use slam_app_rust_server::store::Store;

#[test]
fn room_request_needs_a_name() {
    let mut store = Store::new();
    let r = create_room(&mut store, RoomRequest { name: None });
    assert_eq!(r.unwrap_err(), SlamError::Validation);
    assert!(store.rooms.is_empty());
    let room = create_room(&mut store, RoomRequest { name: Some("Open mic".to_string()) }).unwrap();
    assert_eq!(room.name, "Open mic");
    assert_eq!(store.rooms.len(), 1);
}

#[test]
fn participant_request_needs_name_and_room() {
    let mut store = Store::new();
    let room = insert_room(&mut store, "Slam").unwrap();
    let no_room = create_participant(
        &mut store,
        ParticipantRequest { name: Some("Ann".to_string()), pronouns: None, room_id: None },
    );
    assert_eq!(no_room.unwrap_err(), SlamError::Validation);
    let no_name = create_participant(
        &mut store,
        ParticipantRequest { name: None, pronouns: None, room_id: Some(room.id.clone()) },
    );
    assert_eq!(no_name.unwrap_err(), SlamError::Validation);
    assert!(store.participants.is_empty());
    let p = create_participant(
        &mut store,
        ParticipantRequest {
            name: Some("Ann".to_string()),
            pronouns: Some("she/her".to_string()),
            room_id: Some(room.id.clone()),
        },
    )
    .unwrap();
    assert_eq!(p.name, "Ann");
    assert_eq!(p.pronouns, Some("she/her".to_string()));
    assert_eq!(p.room_id, room.id);
    let dup = create_participant(
        &mut store,
        ParticipantRequest { name: Some("Ann".to_string()), pronouns: None, room_id: Some(room.id.clone()) },
    );
    assert_eq!(dup.unwrap_err(), SlamError::Conflict);
    let lost = create_participant(
        &mut store,
        ParticipantRequest { name: Some("Bo".to_string()), pronouns: None, room_id: Some("none".to_string()) },
    );
    assert_eq!(lost.unwrap_err(), SlamError::NotFound);
    assert_eq!(store.participants.len(), 1);
}

#[test]
fn current_round_follows_the_latest_advance() {
    let mut store = Store::new();
    let room = insert_room(&mut store, "Slam").unwrap();
    assert_eq!(retrieve_current_round(&store, &room.id).unwrap_err(), SlamError::NoCurrentRound);
    assert_eq!(retrieve_current_round(&store, "none").unwrap_err(), SlamError::NotFound);
    let p = create_participant(
        &mut store,
        ParticipantRequest { name: Some("Ann".to_string()), pronouns: None, room_id: Some(room.id.clone()) },
    )
    .unwrap();
    let first = create_next_round(&mut store, &room.id, vec![p.clone()]).unwrap();
    let current = retrieve_current_round(&store, &room.id).unwrap();
    assert_eq!(current.round.id, first.id);
    assert_eq!(current.participations.len(), 1);
    let second = create_next_round(&mut store, &room.id, vec![]).unwrap();
    let current = retrieve_current_round(&store, &room.id).unwrap();
    assert_eq!(current.round.id, second.id);
    assert_eq!(current.round.round_number, 2);
    assert!(current.participations.is_empty());
}
