//! Recording judges' scores and computing results.

use vstd::prelude::*;
use crate::ids::new_id;
use crate::models::{Participation, ParticipationUpdate, Score, SlamError};
use crate::scoring::{trimmed_score, trimmed_sum, SCORES_PER_RESULT};
use crate::store::{
    find_index,
    has_key,
    key_index,
    lemma_lookup_at,
    lemma_push_unique,
    lemma_update_unique,
    Record,
    Store,
};

verus! {

/// The values of the scores of participation `pid`, in the order stored.
pub open spec fn score_values(scores: Seq<Score>, pid: Seq<char>) -> Seq<i32>
    decreases scores.len(),
{
    if scores.len() == 0 {
        Seq::empty()
    } else {
        let before = score_values(scores.drop_last(), pid);
        if scores.last().participation_id@ == pid {
            before.push(scores.last().value)
        } else {
            before
        }
    }
}

/// The change that records a computed result and nothing else.
pub open spec fn result_update(total: int) -> ParticipationUpdate {
    ParticipationUpdate {
        performance_notes: None,
        performance_length_in_seconds: None,
        deduction: None,
        score: Some(total as i64),
    }
}

/// The participations, with participation `pid` (if present) given the
/// result `total`.
pub open spec fn with_result(ps: Seq<Participation>, pid: Seq<char>, total: int) -> Seq<Participation> {
    if has_key(ps, pid) {
        let k = key_index(ps, pid);
        ps.update(k, result_update(total).applied(ps[k]))
    } else {
        ps
    }
}

/// `after` is `before` with `score` stored for the stored participation `pid`; when
/// that makes exactly five scores for it, the participation's result is set
/// to their trimmed sum, and otherwise no participation changes.
pub open spec fn scored(
    before: Store,
    after: Store,
    score: Score,
    value: i32,
    pid: Seq<char>,
    submitter: Option<String>,
) -> bool {
    let values = score_values(after.scores@, pid);
    &&& score.value == value
    &&& has_key(before.participations@, pid)
    &&& score.participation_id@ == pid
    &&& score.submitter_id == submitter
    &&& !has_key(before.scores@, score.id@)
    &&& after.scores@ == before.scores@.push(score)
    &&& after.participations@ == if values.len() == SCORES_PER_RESULT {
        with_result(before.participations@, pid, trimmed_sum(values))
    } else {
        before.participations@
    }
    &&& after.rooms@ == before.rooms@
    &&& after.participants@ == before.participants@
    &&& after.rounds@ == before.rounds@
}

/// The values of the scores of participation `pid`, in the order stored.
fn values_for(scores: &Vec<Score>, pid: &String) -> (r: Vec<i32>)
    ensures
        r@ == score_values(scores@, pid@),
{
    let mut out: Vec<i32> = Vec::new();
    let mut i: usize = 0;
    while i < scores.len()
        invariant
            0 <= i <= scores@.len(),
            out@ == score_values(scores@.take(i as int), pid@),
        decreases scores@.len() - i,
    {
        proof {
            assert(scores@.take(i as int + 1).drop_last() =~= scores@.take(i as int));
        }
        if scores[i].participation_id.eq(pid) {
            out.push(scores[i].value);
        }
        i = i + 1;
    }
    proof {
        assert(scores@.take(scores@.len() as int) =~= scores@);
    }
    out
}

/// Stores a judge's score `value_value` for participation
/// `participation_id_value` under the id `id`. The score is kept whatever its
/// value, repeated or not. When the participation now has exactly five
/// scores, its result becomes their trimmed sum; with fewer or more it is
/// left as it is.
///
/// Fails, changing nothing, with `NotFound` when there is no such
/// participation, and otherwise with `Store` when the id is already in use.
pub fn add_score(
    store: &mut Store,
    id: String,
    value_value: i32,
    participation_id_value: &str,
    submitter_id_value: Option<String>,
) -> (r: Result<Score, SlamError>)
    requires
        old(store).wf(),
    ensures
        final(store).wf(),
        match r {
            Ok(score) => score.id == id && scored(
                *old(store),
                *final(store),
                score,
                value_value,
                participation_id_value@,
                submitter_id_value,
            ),
            Err(e) => *final(store) == *old(store) && if !has_key(
                old(store).participations@,
                participation_id_value@,
            ) {
                e == SlamError::NotFound
            } else {
                e == SlamError::Store && has_key(old(store).scores@, id@)
            },
        },
        has_key(old(store).participations@, participation_id_value@) && !has_key(
            old(store).scores@,
            id@,
        ) ==> r is Ok,
{
    let pid = participation_id_value.to_owned();
    if find_index(&store.participations, &pid).is_none() {
        return Err(SlamError::NotFound);
    }
    if find_index(&store.scores, &id).is_some() {
        return Err(SlamError::Store);
    }
    let score = Score {
        id: id,
        value: value_value,
        submitter_id: submitter_id_value,
        participation_id: pid.clone(),
    };
    let result = score.duplicate();
    proof {
        lemma_push_unique(store.scores@, score);
    }
    store.scores.push(score);
    let values = values_for(&store.scores, &pid);
    if values.len() == SCORES_PER_RESULT {
        let total = trimmed_score(&values);
        let change = ParticipationUpdate {
            performance_notes: None,
            performance_length_in_seconds: None,
            deduction: None,
            score: Some(total),
        };
        match find_index(&store.participations, &pid) {
            Some(k) => {
                proof {
                    lemma_lookup_at(store.participations@, k as int);
                }
                let updated = change.apply(&store.participations[k]);
                proof {
                    lemma_update_unique(store.participations@, k as int, updated);
                }
                store.participations.set(k, updated);
            },
            None => {},
        }
    }
    Ok(result)
}

/// Stores a judge's score for a participation under a freshly drawn id, and
/// sets the participation's result when this makes exactly five scores (see
/// `add_score`). Returns the new score.
///
/// Fails, changing nothing, with `NotFound` when there is no such
/// participation, and otherwise with `Store` when the drawn id is already in
/// use. Drawn ids have 36 characters, so where the participation exists and
/// no score has such an id, success is certain.
pub fn insert_score(
    store: &mut Store,
    value_value: i32,
    participation_id_value: &str,
    submitter_id_value: Option<String>,
) -> (r: Result<Score, SlamError>)
    requires
        old(store).wf(),
    ensures
        final(store).wf(),
        match r {
            Ok(score) => scored(
                *old(store),
                *final(store),
                score,
                value_value,
                participation_id_value@,
                submitter_id_value,
            ),
            Err(e) => *final(store) == *old(store) && if !has_key(
                old(store).participations@,
                participation_id_value@,
            ) {
                e == SlamError::NotFound
            } else {
                e == SlamError::Store
            },
        },
        r is Err && has_key(old(store).participations@, participation_id_value@) ==> exists|i: int|
            0 <= i < old(store).scores@.len() && #[trigger] old(store).scores@[i].id@.len() == 36,
{
    let ghost before = *store;
    let id = new_id();
    let ghost drawn = id@;
    let r = add_score(store, id, value_value, participation_id_value, submitter_id_value);
    proof {
        if r is Err && has_key(before.participations@, participation_id_value@) {
            let i = choose|i: int| 0 <= i < before.scores@.len() && #[trigger] before.scores@[i].key() == drawn;
            assert(before.scores@[i].id@.len() == 36);
        }
    }
    r
}

} // verus!
