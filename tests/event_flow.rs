use slam_app_rust_server::db::{
    add_participant, add_room, add_score, advance_with_ids, create_next_round, insert_participant,
    insert_room, insert_score, remove_participant, remove_room, retrieve_participants,
    retrieve_room, retrieve_rooms, retrieve_round, retrieve_scores, update_participant,
    update_participation, update_room,
};
use slam_app_rust_server::models::{Participant, SlamError};
use slam_app_rust_server::scoring::{time_deduction, trimmed_score};
use slam_app_rust_server::store::Store;

fn participant_named(store: &mut Store, name: &str, room: &str) -> Participant {
    insert_participant(store, name, None, room).unwrap()
}

fn participation_ids(store: &Store, round_id: &str) -> Vec<String> {
    store
        .participations
        .iter()
        .filter(|p| p.round_id == round_id)
        .map(|p| p.id.clone())
        .collect()
}

#[test]
fn created_room_is_found_with_its_name() {
    let mut store = Store::new();
    let room = insert_room(&mut store, "Finals").unwrap();
    let detail = retrieve_room(&store, &room.id).unwrap();
    assert_eq!(detail.room.name, "Finals");
    assert_eq!(detail.room.id, room.id);
    assert!(!room.id.is_empty());
    assert_eq!(room.id.len(), 36);
    assert!(detail.room.round_id_current.is_none());
    assert!(detail.participants.is_empty());
    assert!(detail.rounds.is_empty());
}

#[test]
fn created_rooms_get_distinct_ids_and_a_timestamp() {
    let mut store = Store::new();
    let a = insert_room(&mut store, "A").unwrap();
    let b = insert_room(&mut store, "A").unwrap();
    assert_ne!(a.id, b.id);
    assert!(!a.created.is_empty());
    assert_eq!(store.rooms.len(), 2);
}

#[test]
fn room_ids_are_checked() {
    let mut store = Store::new();
    assert_eq!(add_room(&mut store, String::new(), "x", "t".to_string()).unwrap_err(), SlamError::Validation);
    add_room(&mut store, "r1".to_string(), "x", "t".to_string()).unwrap();
    assert_eq!(add_room(&mut store, "r1".to_string(), "y", "t".to_string()).unwrap_err(), SlamError::Store);
    assert_eq!(store.rooms.len(), 1);
    assert_eq!(store.rooms[0].name, "x");
}

#[test]
fn unknown_room_is_not_found() {
    let store = Store::new();
    assert_eq!(retrieve_room(&store, "nope").unwrap_err(), SlamError::NotFound);
    assert_eq!(retrieve_round(&store, "nope").unwrap_err(), SlamError::NotFound);
}

#[test]
fn round_numbers_count_up_from_one() {
    let mut store = Store::new();
    let room = insert_room(&mut store, "Slam").unwrap();
    let other = insert_room(&mut store, "Other").unwrap();
    let r1 = create_next_round(&mut store, &room.id, vec![]).unwrap();
    let r2 = create_next_round(&mut store, &room.id, vec![]).unwrap();
    let o1 = create_next_round(&mut store, &other.id, vec![]).unwrap();
    let r3 = create_next_round(&mut store, &room.id, vec![]).unwrap();
    assert_eq!(r1.round_number, 1);
    assert_eq!(r2.round_number, 2);
    assert_eq!(r3.round_number, 3);
    assert_eq!(o1.round_number, 1);
    let detail = retrieve_room(&store, &room.id).unwrap();
    let numbers: Vec<i32> = detail.rounds.iter().map(|r| r.round_number).collect();
    assert_eq!(numbers, vec![1, 2, 3]);
    assert_eq!(detail.room.round_id_current, Some(r3.id.clone()));
}

#[test]
fn advance_keeps_the_given_order() {
    let mut store = Store::new();
    let room = insert_room(&mut store, "Slam").unwrap();
    let first = participant_named(&mut store, "Zed", &room.id);
    let second = participant_named(&mut store, "Amy", &room.id);
    let third = participant_named(&mut store, "Moe", &room.id);
    let round = create_next_round(&mut store, &room.id, vec![first.clone(), second.clone(), third.clone()]).unwrap();
    assert_eq!(round.room_id, room.id);
    let detail = retrieve_round(&store, &round.id).unwrap();
    assert_eq!(detail.round.id, round.id);
    assert_eq!(detail.participations.len(), 3);
    for (i, p) in [&first, &second, &third].iter().enumerate() {
        let slot = &detail.participations[i];
        assert_eq!(slot.participation.performance_order, i as i32);
        assert_eq!(slot.participation.participant_id, p.id);
        assert_eq!(slot.participant.name, p.name);
        assert_eq!(slot.participation.round_id, round.id);
        assert!(slot.participation.score.is_none());
        assert!(slot.participation.deduction.is_none());
    }
    assert_eq!(retrieve_room(&store, &room.id).unwrap().room.round_id_current, Some(round.id));
}

#[test]
fn round_detail_leaves_out_removed_performers() {
    let mut store = Store::new();
    let room = insert_room(&mut store, "Slam").unwrap();
    let first = participant_named(&mut store, "A", &room.id);
    let second = participant_named(&mut store, "B", &room.id);
    let round = create_next_round(&mut store, &room.id, vec![first.clone(), second.clone()]).unwrap();
    assert_eq!(remove_participant(&mut store, first.id.clone()), 1);
    assert_eq!(store.participations.len(), 2);
    let detail = retrieve_round(&store, &round.id).unwrap();
    assert_eq!(detail.participations.len(), 1);
    assert_eq!(detail.participations[0].participant.id, second.id);
    assert_eq!(detail.participations[0].participation.performance_order, 1);
}

#[test]
fn advance_refuses_ids_in_use() {
    let mut store = Store::new();
    let room = insert_room(&mut store, "Slam").unwrap();
    let first = participant_named(&mut store, "A", &room.id);
    let second = participant_named(&mut store, "B", &room.id);
    let r = advance_with_ids(&mut store, &room.id, &vec![first.clone(), second.clone()], "round".to_string(), vec!["x".to_string(), "x".to_string()]);
    assert_eq!(r.unwrap_err(), SlamError::Store);
    assert!(store.rounds.is_empty());
    assert!(store.participations.is_empty());
    let ok = advance_with_ids(&mut store, &room.id, &vec![first.clone()], "round".to_string(), vec!["x".to_string()]).unwrap();
    assert_eq!(ok.round_number, 1);
    let again = advance_with_ids(&mut store, &room.id, &vec![second.clone()], "round".to_string(), vec!["y".to_string()]);
    assert_eq!(again.unwrap_err(), SlamError::Store);
    let reused = advance_with_ids(&mut store, &room.id, &vec![second.clone()], "round2".to_string(), vec!["x".to_string()]);
    assert_eq!(reused.unwrap_err(), SlamError::Store);
    assert_eq!(store.rounds.len(), 1);
    assert_eq!(store.participations.len(), 1);
}

fn one_performance(store: &mut Store) -> String {
    let room = insert_room(store, "Slam").unwrap();
    let p = participant_named(store, "Poet", &room.id);
    let round = create_next_round(store, &room.id, vec![p]).unwrap();
    participation_ids(store, &round.id)[0].clone()
}

fn score_of(store: &Store, pid: &str) -> Option<i64> {
    store.participations.iter().find(|p| p.id == pid).unwrap().score
}

#[test]
fn five_scores_give_the_sum_of_the_middle_three() {
    let mut store = Store::new();
    let pid = one_performance(&mut store);
    let values = [800, 950, 700, 900, 650];
    for (i, v) in values.iter().enumerate() {
        let s = insert_score(&mut store, *v, &pid, None).unwrap();
        assert_eq!(s.value, *v);
        assert_eq!(s.participation_id, pid);
        if i < 4 {
            assert_eq!(score_of(&store, &pid), None);
        }
    }
    assert_eq!(score_of(&store, &pid), Some(2400));
    insert_score(&mut store, 1000, &pid, Some("judge".to_string())).unwrap();
    assert_eq!(score_of(&store, &pid), Some(2400));
    assert_eq!(retrieve_scores(&store, &Some(pid.clone())).len(), 6);
}

#[test]
fn four_or_six_scores_never_set_a_result() {
    let mut store = Store::new();
    let pid = one_performance(&mut store);
    for v in [500, 600, 700, 800] {
        insert_score(&mut store, v, &pid, None).unwrap();
    }
    assert_eq!(score_of(&store, &pid), None);
    let mut other = Store::new();
    let qid = one_performance(&mut other);
    for v in [100, 200, 300, 400, 500] {
        insert_score(&mut other, v, &qid, None).unwrap();
    }
    assert_eq!(score_of(&other, &qid), Some(900));
    insert_score(&mut other, 1, &qid, None).unwrap();
    assert_eq!(score_of(&other, &qid), Some(900));
}

#[test]
fn scores_of_other_performances_do_not_count() {
    let mut store = Store::new();
    let room = insert_room(&mut store, "Slam").unwrap();
    let a = participant_named(&mut store, "A", &room.id);
    let b = participant_named(&mut store, "B", &room.id);
    let round = create_next_round(&mut store, &room.id, vec![a, b]).unwrap();
    let ids = participation_ids(&store, &round.id);
    let (pid, other) = (ids[0].clone(), ids[1].clone());
    for v in [500, 600, 700, 800] {
        insert_score(&mut store, v, &pid, None).unwrap();
    }
    insert_score(&mut store, 900, &other, None).unwrap();
    assert_eq!(score_of(&store, &pid), None);
    assert_eq!(score_of(&store, &other), None);
    assert_eq!(retrieve_scores(&store, &None).len(), 5);
    assert_eq!(retrieve_scores(&store, &Some(other.clone())).len(), 1);
    assert_eq!(retrieve_scores(&store, &Some(pid.clone())).len(), 4);
}

#[test]
fn score_for_an_unknown_performance_is_not_found() {
    let mut store = Store::new();
    let pid = one_performance(&mut store);
    insert_score(&mut store, 500, &pid, None).unwrap();
    let r = insert_score(&mut store, 900, "elsewhere", None);
    assert_eq!(r.unwrap_err(), SlamError::NotFound);
    assert_eq!(store.scores.len(), 1);
    let direct = add_score(&mut store, "s9".to_string(), 900, "elsewhere", None);
    assert_eq!(direct.unwrap_err(), SlamError::NotFound);
    assert_eq!(store.scores.len(), 1);
}

#[test]
fn score_ids_are_checked() {
    let mut store = Store::new();
    let pid = one_performance(&mut store);
    let s = add_score(&mut store, "s1".to_string(), 700, &pid, Some("j".to_string())).unwrap();
    assert_eq!(s.id, "s1");
    assert_eq!(s.participation_id, pid);
    assert_eq!(s.submitter_id, Some("j".to_string()));
    assert_eq!(add_score(&mut store, "s1".to_string(), 800, &pid, None).unwrap_err(), SlamError::Store);
    assert_eq!(store.scores.len(), 1);
}

#[test]
fn trimmed_sum_with_ties_and_negatives() {
    assert_eq!(trimmed_score(&vec![800, 950, 700, 900, 650]), 2400);
    assert_eq!(trimmed_score(&vec![500, 500, 500, 500, 500]), 1500);
    assert_eq!(trimmed_score(&vec![-100, 0, 300, 300, 1000]), 600);
    assert_eq!(trimmed_score(&vec![i32::MAX, i32::MAX, i32::MAX, i32::MIN, i32::MIN]), 2 * (i32::MAX as i64) + (i32::MIN as i64));
}

#[test]
fn deduction_per_full_ten_seconds_over_limit() {
    assert_eq!(time_deduction(205), Some(50));
    assert_eq!(time_deduction(190), None);
    assert_eq!(time_deduction(250), Some(300));
    assert_eq!(time_deduction(191), Some(0));
    assert_eq!(time_deduction(200), Some(50));
    assert_eq!(time_deduction(-5), None);
    assert_eq!(time_deduction(i32::MAX), Some(((i32::MAX as i64 - 190) / 10) * 50));
}

#[test]
fn timing_updates_overwrite_the_deduction() {
    let mut store = Store::new();
    let pid = one_performance(&mut store);
    let find = |s: &Store| s.participations.iter().find(|p| p.id == pid).unwrap().deduction;
    assert_eq!(update_participation(&mut store, pid.clone(), None, Some(205)), 1);
    assert_eq!(find(&store), Some(50));
    assert_eq!(update_participation(&mut store, pid.clone(), None, Some(250)), 1);
    assert_eq!(find(&store), Some(300));
    assert_eq!(update_participation(&mut store, pid.clone(), Some("calm".to_string()), Some(190)), 1);
    assert_eq!(find(&store), None);
    let p = store.participations.iter().find(|p| p.id == pid).unwrap();
    assert_eq!(p.performance_length_in_seconds, Some(190));
    assert_eq!(p.performance_notes, Some("calm".to_string()));
    assert_eq!(update_participation(&mut store, pid.clone(), None, None), 1);
    let p = store.participations.iter().find(|p| p.id == pid).unwrap();
    assert_eq!(p.performance_notes, Some("calm".to_string()));
    assert_eq!(p.performance_length_in_seconds, Some(190));
    assert_eq!(update_participation(&mut store, "missing".to_string(), None, Some(300)), 0);
}

#[test]
fn timing_leaves_the_result_alone() {
    let mut store = Store::new();
    let pid = one_performance(&mut store);
    for v in [800, 950, 700, 900, 650] {
        insert_score(&mut store, v, &pid, None).unwrap();
    }
    update_participation(&mut store, pid.clone(), None, Some(260));
    assert_eq!(score_of(&store, &pid), Some(2400));
    let p = store.participations.iter().find(|p| p.id == pid).unwrap();
    assert_eq!(p.deduction, Some(350));
}

#[test]
fn removed_room_and_its_participants_are_gone() {
    let mut store = Store::new();
    let room = insert_room(&mut store, "Slam").unwrap();
    let keep = insert_room(&mut store, "Keep").unwrap();
    let p = participant_named(&mut store, "Gone", &room.id);
    let q = participant_named(&mut store, "Stays", &keep.id);
    let round = create_next_round(&mut store, &room.id, vec![p.clone()]).unwrap();
    assert_eq!(remove_room(&mut store, room.id.clone()), 1);
    assert_eq!(retrieve_room(&store, &room.id).unwrap_err(), SlamError::NotFound);
    assert!(store.participants.iter().all(|x| x.id != p.id));
    assert!(store.participants.iter().any(|x| x.id == q.id));
    assert!(retrieve_room(&store, &keep.id).is_ok());
    assert_eq!(store.rounds.len(), 1);
    assert_eq!(store.rounds[0].id, round.id);
    assert_eq!(store.participations.len(), 1);
    assert_eq!(remove_room(&mut store, room.id.clone()), 0);
}

#[test]
fn duplicate_participant_name_is_a_conflict() {
    let mut store = Store::new();
    let room = insert_room(&mut store, "Slam").unwrap();
    let other = insert_room(&mut store, "Other").unwrap();
    participant_named(&mut store, "Sam", &room.id);
    let before = store.participants.len();
    let again = insert_participant(&mut store, "Sam", Some("they/them".to_string()), &room.id);
    assert_eq!(again.unwrap_err(), SlamError::Conflict);
    let elsewhere = insert_participant(&mut store, "Sam", None, &other.id);
    assert_eq!(elsewhere.unwrap_err(), SlamError::Conflict);
    let nowhere = insert_participant(&mut store, "Sam", None, "no-room");
    assert_eq!(nowhere.unwrap_err(), SlamError::Conflict);
    assert_eq!(store.participants.len(), before);
}

#[test]
fn participant_needs_an_existing_room() {
    let mut store = Store::new();
    let r = insert_participant(&mut store, "Ann", None, "no-room");
    assert_eq!(r.unwrap_err(), SlamError::NotFound);
    assert!(store.participants.is_empty());
}

#[test]
fn participant_ids_are_checked() {
    let mut store = Store::new();
    add_room(&mut store, "r".to_string(), "R", "t".to_string()).unwrap();
    let p = add_participant(&mut store, "p".to_string(), "Ann", Some("she/her".to_string()), "r").unwrap();
    assert_eq!(p.pronouns, Some("she/her".to_string()));
    assert_eq!(p.room_id, "r");
    assert_eq!(add_participant(&mut store, "p".to_string(), "Bo", None, "r").unwrap_err(), SlamError::Store);
    assert_eq!(add_participant(&mut store, String::new(), "Bo", None, "r").unwrap_err(), SlamError::Validation);
    assert_eq!(store.participants.len(), 1);
}

#[test]
fn updates_change_only_present_fields() {
    let mut store = Store::new();
    let room = insert_room(&mut store, "Old").unwrap();
    assert_eq!(update_room(&mut store, room.id.clone(), None), 1);
    assert_eq!(store.rooms[0].name, "Old");
    assert_eq!(update_room(&mut store, room.id.clone(), Some("New".to_string())), 1);
    assert_eq!(store.rooms[0].name, "New");
    assert_eq!(update_room(&mut store, "missing".to_string(), Some("X".to_string())), 0);
    let p = insert_participant(&mut store, "Ann", Some("she/her".to_string()), &room.id).unwrap();
    assert_eq!(update_participant(&mut store, p.id.clone(), Some("Anne".to_string()), None), 1);
    assert_eq!(store.participants[0].name, "Anne");
    assert_eq!(store.participants[0].pronouns, Some("she/her".to_string()));
    assert_eq!(update_participant(&mut store, p.id.clone(), None, Some("they/them".to_string())), 1);
    assert_eq!(store.participants[0].name, "Anne");
    assert_eq!(store.participants[0].pronouns, Some("they/them".to_string()));
    assert_eq!(update_participant(&mut store, "missing".to_string(), None, None), 0);
}

#[test]
fn listing_filters_and_limits() {
    let mut store = Store::new();
    let mut ids = Vec::new();
    for i in 0..12 {
        ids.push(insert_room(&mut store, &format!("room {}", i)).unwrap().id);
    }
    let recent = retrieve_rooms(&store);
    assert_eq!(recent.len(), 10);
    assert_eq!(recent[0].name, "room 11");
    assert_eq!(recent[9].name, "room 2");
    assert_eq!(retrieve_rooms(&Store::new()).len(), 0);
    participant_named(&mut store, "A", &ids[0]);
    participant_named(&mut store, "B", &ids[1]);
    participant_named(&mut store, "C", &ids[0]);
    let in_first = retrieve_participants(&store, &Some(ids[0].clone()));
    let names: Vec<&str> = in_first.iter().map(|p| p.name.as_str()).collect();
    assert_eq!(names, vec!["A", "C"]);
    assert_eq!(retrieve_participants(&store, &None).len(), 3);
    assert_eq!(remove_participant(&mut store, "missing".to_string()), 0);
}

#[test]
fn result_does_not_depend_on_arrival_order() {
    let orders = [
        [800, 950, 700, 900, 650],
        [650, 700, 800, 900, 950],
        [950, 900, 800, 700, 650],
        [700, 650, 950, 800, 900],
    ];
    for order in orders.iter() {
        let mut store = Store::new();
        let pid = one_performance(&mut store);
        for v in order.iter() {
            insert_score(&mut store, *v, &pid, None).unwrap();
        }
        assert_eq!(score_of(&store, &pid), Some(2400));
    }
    let mut store = Store::new();
    let pid = one_performance(&mut store);
    for v in [700, 900, 700, 900, 800] {
        insert_score(&mut store, v, &pid, None).unwrap();
    }
    assert_eq!(score_of(&store, &pid), Some(2400));
}

#[test]
fn advancing_an_unknown_room_is_not_found() {
    let mut store = Store::new();
    let room = insert_room(&mut store, "Slam").unwrap();
    let p = participant_named(&mut store, "Ann", &room.id);
    let r = create_next_round(&mut store, "no-such-room", vec![p.clone()]);
    assert_eq!(r.unwrap_err(), SlamError::NotFound);
    assert!(store.rounds.is_empty());
    assert!(store.participations.is_empty());
    let direct = advance_with_ids(&mut store, "no-such-room", &vec![p], "round".to_string(), vec!["x".to_string()]);
    assert_eq!(direct.unwrap_err(), SlamError::NotFound);
    assert!(store.rounds.is_empty());
    assert!(store.rooms[0].round_id_current.is_none());
}

#[test]
fn created_rooms_carry_an_rfc3339_timestamp() {
    let mut store = Store::new();
    let room = insert_room(&mut store, "Slam").unwrap();
    assert!(room.created.len() >= 25);
    assert_eq!(&room.created[4..5], "-");
    assert_eq!(&room.created[10..11], "T");
}

#[test]
fn round_detail_is_sorted_by_performance_order() {
    let mut store = Store::new();
    let room = insert_room(&mut store, "Slam").unwrap();
    let a = participant_named(&mut store, "A", &room.id);
    let b = participant_named(&mut store, "B", &room.id);
    let c = participant_named(&mut store, "C", &room.id);
    let round = create_next_round(&mut store, &room.id, vec![c.clone(), a.clone(), b.clone()]).unwrap();
    store.participations.reverse();
    let detail = retrieve_round(&store, &round.id).unwrap();
    let orders: Vec<i32> = detail.participations.iter().map(|p| p.participation.performance_order).collect();
    assert_eq!(orders, vec![0, 1, 2]);
    let names: Vec<&str> = detail.participations.iter().map(|p| p.participant.name.as_str()).collect();
    assert_eq!(names, vec!["C", "A", "B"]);
}
