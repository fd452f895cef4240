//! The operations on the store: creating, changing and removing records,
//! advancing rooms from round to round, and recording timings and scores.

mod rooms;
mod participants;
mod rounds;
mod scores;
mod timing;
mod reads;
mod requests;

pub use rooms::{
    room_added,
    add_room,
    insert_room,
    update_room,
    outside_room,
    inside_room,
    round_of_room,
    room_removed,
    remove_room,
};
pub use participants::{
    name_taken,
    participant_added,
    add_participant,
    insert_participant,
    update_participant,
    remove_participant,
};
pub use rounds::{
    room_round_numbers,
    max_or_zero,
    latest_round_number,
    set_current_round,
    new_slot,
    advanced,
    advance_with_ids,
    create_next_round,
};
pub use scores::{
    score_values,
    result_update,
    with_result,
    scored,
    add_score,
    insert_score,
};
pub use timing::{
    timed,
    update_participation,
};
pub use reads::{
    recent_rooms,
    retrieve_rooms,
    retrieve_room,
    lookup_room,
    round_lineup,
    by_performance_order,
    orders_unique,
    round_detail,
    retrieve_round,
    retrieve_participants,
    score_of,
    retrieve_scores,
};
pub use requests::{
    create_room,
    create_participant,
    retrieve_current_round,
};
