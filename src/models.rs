//! The records of the event and the request, update and response values that
//! travel with them. Points are whole hundredths of a point.

use vstd::prelude::*;

verus! {

/// One scored event.
#[derive(Debug, Clone)]
pub struct Room {
    pub id: String,
    pub name: String,
    pub created: String,
    pub round_id_current: Option<String>,
    pub participation_id_current: Option<String>,
}

/// A person registered to compete in a room.
#[derive(Debug, Clone)]
pub struct Participant {
    pub id: String,
    pub name: String,
    pub pronouns: Option<String>,
    pub room_id: String,
}

/// One judge's score of one performance, in hundredths of a point.
#[derive(Debug, Clone)]
pub struct Score {
    pub id: String,
    pub value: i32,
    pub submitter_id: Option<String>,
    pub participation_id: String,
}

/// One numbered heat of a room.
#[derive(Debug, Clone)]
pub struct Round {
    pub id: String,
    pub round_number: i32,
    pub room_id: String,
}

/// One participant's performance in one round. `deduction` and `score` are
/// in hundredths of a point.
#[derive(Debug, Clone)]
pub struct Participation {
    pub id: String,
    pub performance_notes: Option<String>,
    pub performance_length_in_seconds: Option<i32>,
    pub deduction: Option<i64>,
    pub score: Option<i64>,
    pub performance_order: i32,
    pub round_id: String,
    pub participant_id: String,
}

/// Asks for a room to be created or renamed.
#[derive(Debug, Clone)]
pub struct RoomRequest {
    pub name: Option<String>,
}

/// Asks for a participant to be created or changed.
#[derive(Debug, Clone)]
pub struct ParticipantRequest {
    pub name: Option<String>,
    pub pronouns: Option<String>,
    pub room_id: Option<String>,
}

/// One judge's score, in hundredths of a point, for a performance.
#[derive(Debug, Clone)]
pub struct ScoreRequest {
    pub value: i32,
    pub participation_id: String,
    pub submitter_id: Option<String>,
}

/// New timing and notes for a performance.
#[derive(Debug, Clone)]
pub struct ParticipationRequest {
    pub notes: Option<String>,
    pub length: Option<i32>,
}

/// Fields of a participant to change; an absent field is left as it is.
#[derive(Debug, Clone)]
pub struct ParticipantUpdate {
    pub name: Option<String>,
    pub pronouns: Option<String>,
}

/// Fields of a room to change; an absent field is left as it is.
#[derive(Debug, Clone)]
pub struct RoomUpdate {
    pub name: Option<String>,
}

/// Fields of a participation to change; an absent field is left as it is.
#[derive(Debug, Clone)]
pub struct ParticipationUpdate {
    pub performance_notes: Option<String>,
    pub performance_length_in_seconds: Option<i32>,
    pub deduction: Option<i64>,
    pub score: Option<i64>,
}

/// A room with its participants and rounds.
#[derive(Debug, Clone)]
pub struct RoomResponse {
    pub room: Room,
    pub participants: Vec<Participant>,
    pub rounds: Vec<Round>,
}

/// A round with its performances.
#[derive(Debug, Clone)]
pub struct RoundResponse {
    pub round: Round,
    pub participations: Vec<ParticipationResponse>,
}

/// A performance together with its performer.
#[derive(Debug, Clone)]
pub struct ParticipationResponse {
    pub participation: Participation,
    pub participant: Participant,
}

/// Restricts a listing of participants to one room.
#[derive(Debug, Clone)]
pub struct ParticipantFilter {
    pub room_id: Option<String>,
}

/// Restricts a listing of scores to one performance.
#[derive(Debug, Clone)]
pub struct ScoreFilter {
    pub participation_id: Option<String>,
}

/// A copy of an optional text.
pub fn copy_text(o: &Option<String>) -> (r: Option<String>)
    ensures
        r == *o,
{
    match o {
        Some(s) => Some(s.clone()),
        None => None,
    }
}

impl Room {
    /// A field-for-field copy.
    pub fn duplicate(&self) -> (r: Room)
        ensures
            r == *self,
    {
        Room {
            id: self.id.clone(),
            name: self.name.clone(),
            created: self.created.clone(),
            round_id_current: copy_text(&self.round_id_current),
            participation_id_current: copy_text(&self.participation_id_current),
        }
    }
}

impl Participant {
    /// A field-for-field copy.
    pub fn duplicate(&self) -> (r: Participant)
        ensures
            r == *self,
    {
        Participant {
            id: self.id.clone(),
            name: self.name.clone(),
            pronouns: copy_text(&self.pronouns),
            room_id: self.room_id.clone(),
        }
    }
}

impl Score {
    /// A field-for-field copy.
    pub fn duplicate(&self) -> (r: Score)
        ensures
            r == *self,
    {
        Score {
            id: self.id.clone(),
            value: self.value,
            submitter_id: copy_text(&self.submitter_id),
            participation_id: self.participation_id.clone(),
        }
    }
}

impl Round {
    /// A field-for-field copy.
    pub fn duplicate(&self) -> (r: Round)
        ensures
            r == *self,
    {
        Round { id: self.id.clone(), round_number: self.round_number, room_id: self.room_id.clone() }
    }
}

impl Participation {
    /// A field-for-field copy.
    pub fn duplicate(&self) -> (r: Participation)
        ensures
            r == *self,
    {
        Participation {
            id: self.id.clone(),
            performance_notes: copy_text(&self.performance_notes),
            performance_length_in_seconds: self.performance_length_in_seconds,
            deduction: self.deduction,
            score: self.score,
            performance_order: self.performance_order,
            round_id: self.round_id.clone(),
            participant_id: self.participant_id.clone(),
        }
    }
}

} // verus!

verus! {

/// Why an operation on the store was refused.
#[derive(Debug, Clone, Copy, PartialEq, Eq, Structural)]
pub enum SlamError {
    /// A referenced room, round, participation or participant does not exist.
    NotFound,
    /// A participant with the same name already exists.
    Conflict,
    /// The input is malformed or incomplete.
    Validation,
    /// The store cannot take the write (an id already in use, a counter at
    /// its limit).
    Store,
    /// The room has not opened a round yet.
    NoCurrentRound,
}

} // verus!

verus! {

impl RoomUpdate {
    /// The room with each present field replaced.
    pub open spec fn applied(&self, r: Room) -> Room {
        Room { name: if self.name is Some { self.name->0 } else { r.name }, ..r }
    }

    /// Applies the present fields to a copy of the room.
    pub fn apply(&self, r: &Room) -> (out: Room)
        ensures
            out == self.applied(*r),
    {
        let mut out = r.duplicate();
        match &self.name {
            Some(n) => {
                out.name = n.clone();
            },
            None => {},
        }
        out
    }
}

impl ParticipantUpdate {
    /// The participant with each present field replaced.
    pub open spec fn applied(&self, p: Participant) -> Participant {
        Participant {
            name: if self.name is Some { self.name->0 } else { p.name },
            pronouns: if self.pronouns is Some { self.pronouns } else { p.pronouns },
            ..p
        }
    }

    /// Applies the present fields to a copy of the participant.
    pub fn apply(&self, p: &Participant) -> (out: Participant)
        ensures
            out == self.applied(*p),
    {
        let mut out = p.duplicate();
        match &self.name {
            Some(n) => {
                out.name = n.clone();
            },
            None => {},
        }
        if self.pronouns.is_some() {
            out.pronouns = copy_text(&self.pronouns);
        }
        out
    }
}

impl ParticipationUpdate {
    /// The participation with each present field replaced.
    pub open spec fn applied(&self, p: Participation) -> Participation {
        Participation {
            performance_notes: if self.performance_notes is Some {
                self.performance_notes
            } else {
                p.performance_notes
            },
            performance_length_in_seconds: if self.performance_length_in_seconds is Some {
                self.performance_length_in_seconds
            } else {
                p.performance_length_in_seconds
            },
            deduction: if self.deduction is Some { self.deduction } else { p.deduction },
            score: if self.score is Some { self.score } else { p.score },
            ..p
        }
    }

    /// Applies the present fields to a copy of the participation.
    pub fn apply(&self, p: &Participation) -> (out: Participation)
        ensures
            out == self.applied(*p),
    {
        let mut out = p.duplicate();
        if self.performance_notes.is_some() {
            out.performance_notes = copy_text(&self.performance_notes);
        }
        if self.performance_length_in_seconds.is_some() {
            out.performance_length_in_seconds = self.performance_length_in_seconds;
        }
        if self.deduction.is_some() {
            out.deduction = self.deduction;
        }
        if self.score.is_some() {
            out.score = self.score;
        }
        out
    }
}

} // verus!
