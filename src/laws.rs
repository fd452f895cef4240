//! Properties that relate several operations or several calls.

use vstd::prelude::*;
use crate::db::{
    advanced, latest_round_number, lookup_room, max_or_zero, new_slot, outside_room, room_added, room_removed,
    room_round_numbers, round_lineup, score_values, scored,
};
use crate::models::{Participant, Participation, Room, Round, Score};
use crate::scoring::{max_of, min_of, sum_of, trimmed_sum};
use crate::store::{
    has_key, key_differs, lemma_filter_drops, lemma_lookup_at, lemma_push_unique, Record, Store,
};

verus! {

/// A round stored for the room adds its number to the room's round numbers.
proof fn lemma_round_numbers_push(rounds: Seq<Round>, round: Round, room: Seq<char>)
    ensures
        room_round_numbers(rounds.push(round), room) == if round.room_id@ == room {
            room_round_numbers(rounds, room).push(round.round_number as int)
        } else {
            room_round_numbers(rounds, room)
        },
{
    assert(rounds.push(round).drop_last() =~= rounds);
}

/// The largest of 1, 2, ..., n is n.
proof fn lemma_max_of_count(ns: Seq<int>)
    requires
        forall|k: int| 0 <= k < ns.len() ==> ns[k] == k + 1,
    ensures
        max_or_zero(ns) == ns.len(),
    decreases ns.len(),
{
    if ns.len() > 0 {
        lemma_max_of_count(ns.drop_last());
    }
}

/// After the first `i` advances, the room's rounds are numbered 1 to `i`.
proof fn lemma_numbers_after(
    states: Seq<Store>,
    rounds: Seq<Round>,
    room: Seq<char>,
    lineups: Seq<Seq<Participant>>,
    i: int,
)
    requires
        0 <= i <= rounds.len(),
        states.len() == rounds.len() + 1,
        lineups.len() == rounds.len(),
        room_round_numbers(states[0].rounds@, room).len() == 0,
        forall|j: int| 0 <= j < rounds.len() ==> advanced(
            #[trigger] states[j],
            states[j + 1],
            room,
            lineups[j],
            rounds[j],
        ),
    ensures
        room_round_numbers(states[i].rounds@, room) == Seq::new(i as nat, |k: int| k + 1),
        forall|j: int| 0 <= j < i ==> #[trigger] rounds[j].round_number == j + 1,
    decreases i,
{
    if i == 0 {
        assert(room_round_numbers(states[0].rounds@, room) =~= Seq::new(0, |k: int| k + 1));
    } else {
        let p = i - 1;
        lemma_numbers_after(states, rounds, room, lineups, p);
        let ns = room_round_numbers(states[p].rounds@, room);
        assert(advanced(states[p], states[p + 1], room, lineups[p], rounds[p]));
        lemma_max_of_count(ns);
        lemma_round_numbers_push(states[p].rounds@, rounds[p], room);
        assert(room_round_numbers(states[i].rounds@, room) =~= Seq::new(i as nat, |k: int| k + 1));
    }
}

/// Advancing a room one round after another, starting before its first
/// round, numbers the rounds 1, 2, 3, ... in the order of the calls, with no
/// gap and no repeat; afterwards the room's rounds carry exactly those numbers.
pub proof fn law_round_numbers_count_up(
    states: Seq<Store>,
    rounds: Seq<Round>,
    room: Seq<char>,
    lineups: Seq<Seq<Participant>>,
)
    requires
        states.len() == rounds.len() + 1,
        lineups.len() == rounds.len(),
        room_round_numbers(states[0].rounds@, room).len() == 0,
        forall|i: int| 0 <= i < rounds.len() ==> advanced(
            #[trigger] states[i],
            states[i + 1],
            room,
            lineups[i],
            rounds[i],
        ),
    ensures
        forall|i: int| 0 <= i < rounds.len() ==> #[trigger] rounds[i].round_number == i + 1,
        room_round_numbers(states.last().rounds@, room) == Seq::new(
            rounds.len(),
            |k: int| k + 1,
        ),
{
    lemma_numbers_after(states, rounds, room, lineups, rounds.len() as int);
}

/// A room just created is found by its id, under the name it was given; its
/// id is not empty and belongs to no other room.
pub proof fn law_created_room_is_found(before: Store, after: Store, room: Room, name: Seq<char>)
    requires
        before.wf(),
        room_added(before, after, room, name),
    ensures
        lookup_room(&after, room.id@) == Some(room),
        room.name@ == name,
        room.id@.len() > 0,
        forall|i: int| 0 <= i < after.rooms@.len() && #[trigger] after.rooms@[i].id@ == room.id@
            ==> after.rooms@[i] == room,
{
    lemma_push_unique(before.rooms@, room);
    lemma_lookup_at(after.rooms@, before.rooms@.len() as int);
    assert forall|i: int| 0 <= i < after.rooms@.len() && #[trigger] after.rooms@[i].id@
        == room.id@ implies after.rooms@[i] == room by {
        if i < before.rooms@.len() {
            assert(after.rooms@[i] == before.rooms@[i]);
            assert(before.rooms@[i].key() == room.id@);
        }
    }
}

/// Once a room is removed, neither the room nor any participant that
/// belonged to it is found by its id.
pub proof fn law_removed_room_is_gone(before: Store, after: Store, id: Seq<char>)
    requires
        before.wf(),
        room_removed(before, after, id),
    ensures
        lookup_room(&after, id) is None,
        forall|i: int| 0 <= i < before.participants@.len() && #[trigger] before.participants@[i].room_id@
            == id ==> !has_key(after.participants@, before.participants@[i].id@),
{
    lemma_filter_drops(before.rooms@, key_differs(id), id);
    let ps = before.participants@;
    assert forall|i: int| 0 <= i < ps.len() && #[trigger] ps[i].room_id@ == id implies !has_key(
        after.participants@,
        ps[i].id@,
    ) by {
        assert forall|j: int| 0 <= j < ps.len() && #[trigger] ps[j].id@ == ps[i].id@ implies !(
        outside_room(id))(ps[j]) by {
            if j != i {
                if j < i {
                    assert(ps[j].key() != ps[i].key());
                } else {
                    assert(ps[i].key() != ps[j].key());
                }
            }
        }
        lemma_filter_drops(ps, outside_room(id), ps[i].id@);
    }
}

/// Performances of other rounds contribute nothing to a round's detail.
proof fn lemma_lineup_empty(ps: Seq<Participation>, people: Seq<Participant>, rid: Seq<char>)
    requires
        forall|i: int| 0 <= i < ps.len() ==> #[trigger] ps[i].round_id@ != rid,
    ensures
        round_lineup(ps, people, rid) == Seq::<crate::models::ParticipationResponse>::empty(),
    decreases ps.len(),
{
    if ps.len() > 0 {
        lemma_lineup_empty(ps.drop_last(), people, rid);
    }
}

/// The detail of a round just opened, over its first `k` new performances.
proof fn lemma_lineup_prefix(
    before: Store,
    after: Store,
    room: Seq<char>,
    ps: Seq<Participant>,
    round: Round,
    k: int,
)
    requires
        before.wf(),
        advanced(before, after, room, ps, round),
        forall|i: int| 0 <= i < ps.len() ==> has_key(after.participants@, #[trigger] ps[i].id@),
        0 <= k <= ps.len(),
    ensures
        ({
            let d = round_lineup(
                after.participations@.take(before.participations@.len() + k),
                after.participants@,
                round.id@,
            );
            &&& d.len() == k
            &&& forall|i: int| 0 <= i < k ==> {
                &&& (#[trigger] d[i]).participation.performance_order == i
                &&& d[i].participation.participant_id@ == ps[i].id@
                &&& d[i].participation.round_id == round.id
                &&& d[i].participant.key() == ps[i].id@
            }
        }),
    decreases k,
{
    let n = before.participations@.len() as int;
    let all = after.participations@;
    if k == 0 {
        assert(all.take(n) =~= before.participations@);
        assert forall|i: int| 0 <= i < n implies #[trigger] before.participations@[i].round_id@
            != round.id@ by {
            let rid = before.participations@[i].round_id@;
            assert(has_key(before.rounds@, rid));
        }
        lemma_lineup_empty(before.participations@, after.participants@, round.id@);
    } else {
        lemma_lineup_prefix(before, after, room, ps, round, k - 1);
        let j = k - 1;
        assert(all.take(n + k).drop_last() =~= all.take(n + j));
        assert(all[n + j] == new_slot(all[n + j].id, round.id, ps[j], j));
        assert(all.take(n + k).last() == all[n + j]);
        assert(has_key(after.participants@, ps[j].id@));
        let people = after.participants@;
        let idx = crate::store::key_index(people, ps[j].id@);
        assert(people[idx].key() == ps[j].id@);
    }
}

/// Right after a round is opened, its joined performances (those that
/// `retrieve_round` returns, sorted) are one per given participant (when each
/// of them is stored), in the order given, with performance orders 0, 1, 2,
/// ..., each joined with its performer.
pub proof fn law_new_round_lists_in_order(
    before: Store,
    after: Store,
    room: Seq<char>,
    ps: Seq<Participant>,
    round: Round,
)
    requires
        before.wf(),
        advanced(before, after, room, ps, round),
        forall|i: int| 0 <= i < ps.len() ==> has_key(after.participants@, #[trigger] ps[i].id@),
    ensures
        ({
            let d = round_lineup(after.participations@, after.participants@, round.id@);
            &&& d.len() == ps.len()
            &&& forall|i: int| 0 <= i < ps.len() ==> {
                &&& (#[trigger] d[i]).participation.performance_order == i
                &&& d[i].participation.participant_id@ == ps[i].id@
                &&& d[i].participation.round_id == round.id
                &&& d[i].participant.key() == ps[i].id@
            }
        }),
{
    lemma_lineup_prefix(before, after, room, ps, round, ps.len() as int);
    assert(after.participations@.take(before.participations@.len() + ps.len() as int)
        =~= after.participations@);
}

/// For five scores in ascending order, the trimmed sum is the sum of the
/// middle three.
pub proof fn law_trimmed_sum_of_sorted(t: Seq<i32>)
    requires
        t.len() == 5,
        forall|i: int, j: int| 0 <= i < j < 5 ==> t[i] <= t[j],
    ensures
        trimmed_sum(t) == t[1] + t[2] + t[3],
{
    let t1 = t.drop_last();
    let t2 = t1.drop_last();
    let t3 = t2.drop_last();
    let t4 = t3.drop_last();
    assert(t4.len() == 1 && t4[0] == t[0]);
    assert(t3.last() == t[1] && t2.last() == t[2] && t1.last() == t[3] && t.last() == t[4]);
    assert(sum_of(t4.drop_last()) == 0);
    assert(sum_of(t4) == t[0]);
    assert(sum_of(t3) == t[0] + t[1]);
    assert(sum_of(t2) == t[0] + t[1] + t[2]);
    assert(sum_of(t1) == t[0] + t[1] + t[2] + t[3]);
    assert(sum_of(t) == t[0] + t[1] + t[2] + t[3] + t[4]);
    assert(min_of(t4) == t[0] && max_of(t4) == t[0]);
    assert(min_of(t3) == t[0] && max_of(t3) == t[1]);
    assert(min_of(t2) == t[0] && max_of(t2) == t[2]);
    assert(min_of(t1) == t[0] && max_of(t1) == t[3]);
    assert(min_of(t) == t[0] && max_of(t) == t[4]);
}

/// Once a performance has five scores, further scores leave every result
/// as it was.
pub proof fn law_result_fixed_after_five(
    before: Store,
    after: Store,
    score: Score,
    value: i32,
    pid: Seq<char>,
    submitter: Option<String>,
)
    requires
        score_values(before.scores@, pid).len() >= 5,
        scored(before, after, score, value, pid, submitter),
    ensures
        after.participations@ == before.participations@,
{
    assert(before.scores@.push(score).drop_last() =~= before.scores@);
    assert(score_values(after.scores@, pid).len() == score_values(before.scores@, pid).len() + 1);
}

/// Taking the score at `j` out of a sequence takes it out of the sum, and,
/// when at least one score stays, out of the lowest and the highest.
proof fn lemma_remove_one(t: Seq<i32>, j: int)
    requires
        0 <= j < t.len(),
    ensures
        sum_of(t) == sum_of(t.remove(j)) + t[j],
        t.len() >= 2 ==> min_of(t) == if (t[j] as int) < min_of(t.remove(j)) {
            t[j] as int
        } else {
            min_of(t.remove(j))
        },
        t.len() >= 2 ==> max_of(t) == if (t[j] as int) > max_of(t.remove(j)) {
            t[j] as int
        } else {
            max_of(t.remove(j))
        },
    decreases t.len(),
{
    let dl = t.drop_last();
    if j == t.len() - 1 {
        assert(t.remove(j) =~= dl);
        assert(t.last() == t[j]);
    } else {
        let u = t.remove(j);
        lemma_remove_one(dl, j);
        assert(u.drop_last() =~= dl.remove(j));
        assert(u.last() == t.last());
        assert(dl[j] == t[j]);
        if t.len() == 2 {
            assert(u =~= seq![t[1]]);
            assert(dl =~= seq![t[0]]);
            assert(min_of(u) == t[1] && max_of(u) == t[1]);
            assert(min_of(dl) == t[0] && max_of(dl) == t[0]);
        } else {
            assert(min_of(u) == if (t.last() as int) < min_of(dl.remove(j)) {
                t.last() as int
            } else {
                min_of(dl.remove(j))
            });
            assert(max_of(u) == if (t.last() as int) > max_of(dl.remove(j)) {
                t.last() as int
            } else {
                max_of(dl.remove(j))
            });
        }
    }
}

/// Sequences holding the same scores, in any order, have the same sum, the
/// same lowest and the same highest score.
proof fn lemma_same_scores(s: Seq<i32>, t: Seq<i32>)
    requires
        s.to_multiset() == t.to_multiset(),
    ensures
        sum_of(s) == sum_of(t),
        s.len() >= 1 ==> min_of(s) == min_of(t),
        s.len() >= 1 ==> max_of(s) == max_of(t),
    decreases s.len(),
{
    broadcast use vstd::seq_lib::group_to_multiset_ensures;
    broadcast use vstd::multiset::group_multiset_axioms;

    vstd::seq_lib::to_multiset_len(s);
    vstd::seq_lib::to_multiset_len(t);
    assert(s.len() == t.len());
    if s.len() > 0 {
        let x = s.last();
        let rest = s.drop_last();
        assert(rest.push(x) =~= s);
        assert(s.to_multiset() == rest.to_multiset().insert(x));
        assert(t.to_multiset().count(x) > 0);
        assert(t.contains(x));
        let j = choose|j: int| 0 <= j < t.len() && t[j] == x;
        let u = t.remove(j);
        assert(u.to_multiset() == t.to_multiset().remove(x));
        assert(u.to_multiset() =~= rest.to_multiset());
        lemma_same_scores(rest, u);
        lemma_remove_one(t, j);
        if s.len() == 1 {
            assert(t.len() == 1 && t[0] == x);
        }
    }
}

/// The trimmed sum does not depend on the order in which the scores came:
/// any arrangement of the same five scores has the same trimmed sum, which
/// is the sum of the middle three once they are sorted in ascending order.
pub proof fn law_trimmed_sum_ignores_order(s: Seq<i32>, sorted: Seq<i32>)
    requires
        s.len() == 5,
        s.to_multiset() == sorted.to_multiset(),
        forall|i: int, j: int| 0 <= i < j < sorted.len() ==> sorted[i] <= sorted[j],
    ensures
        trimmed_sum(s) == trimmed_sum(sorted),
        trimmed_sum(s) == sorted[1] + sorted[2] + sorted[3],
{
    lemma_same_scores(s, sorted);
    vstd::seq_lib::to_multiset_len(s);
    vstd::seq_lib::to_multiset_len(sorted);
    assert(sorted.len() == 5);
    law_trimmed_sum_of_sorted(sorted);
}

/// With positive round numbers, a room's latest round number is the highest
/// of its round numbers, and 0 when it has no round.
proof fn lemma_latest_is_highest(rounds: Seq<Round>, room: Seq<char>)
    requires
        forall|i: int| 0 <= i < rounds.len() ==> #[trigger] rounds[i].round_number >= 1,
    ensures
        forall|i: int| 0 <= i < rounds.len() && #[trigger] rounds[i].room_id@ == room
            ==> rounds[i].round_number <= latest_round_number(rounds, room),
        (exists|i: int| 0 <= i < rounds.len() && #[trigger] rounds[i].room_id@ == room) ==> exists|
            i: int,
        |
            0 <= i < rounds.len() && rounds[i].room_id@ == room && #[trigger] rounds[i].round_number
                == latest_round_number(rounds, room),
        !(exists|i: int| 0 <= i < rounds.len() && #[trigger] rounds[i].room_id@ == room)
            ==> latest_round_number(rounds, room) == 0,
    decreases rounds.len(),
{
    if rounds.len() > 0 {
        let dl = rounds.drop_last();
        let last = rounds.last();
        assert forall|i: int| 0 <= i < dl.len() implies #[trigger] dl[i].round_number >= 1 by {
            assert(dl[i] == rounds[i]);
        }
        lemma_latest_is_highest(dl, room);
        let ns = room_round_numbers(dl, room);
        assert(ns.push(last.round_number as int).drop_last() =~= ns);
        assert(rounds[rounds.len() - 1] == last);
        assert forall|i: int| 0 <= i < rounds.len() && #[trigger] rounds[i].room_id@ == room
            implies rounds[i].round_number <= latest_round_number(rounds, room) by {
            if i < dl.len() {
                assert(dl[i] == rounds[i]);
            }
        }
        if exists|i: int| 0 <= i < dl.len() && #[trigger] dl[i].room_id@ == room {
            let k = choose|k: int|
                0 <= k < dl.len() && dl[k].room_id@ == room && #[trigger] dl[k].round_number
                    == latest_round_number(dl, room);
            assert(rounds[k] == dl[k]);
        } else {
            assert forall|i: int| 0 <= i < rounds.len() - 1 implies #[trigger] rounds[i].room_id@
                != room by {
                assert(dl[i] == rounds[i]);
            }
        }
    }
}

/// A room's next round is numbered one past its highest round number so
/// far, and 1 when it had none: every earlier round of the room has a
/// smaller number, and one of them, if any, has the number just before.
/// Afterwards the room's round numbers are the earlier ones and that one.
pub proof fn law_next_round_follows_highest(
    before: Store,
    after: Store,
    room: Seq<char>,
    ps: Seq<Participant>,
    round: Round,
)
    requires
        before.wf(),
        advanced(before, after, room, ps, round),
    ensures
        forall|i: int| 0 <= i < before.rounds@.len() && #[trigger] before.rounds@[i].room_id@ == room
            ==> before.rounds@[i].round_number < round.round_number,
        (exists|i: int| 0 <= i < before.rounds@.len() && #[trigger] before.rounds@[i].room_id@ == room)
            ==> exists|i: int|
            0 <= i < before.rounds@.len() && before.rounds@[i].room_id@ == room
                && #[trigger] before.rounds@[i].round_number + 1 == round.round_number,
        !(exists|i: int| 0 <= i < before.rounds@.len() && #[trigger] before.rounds@[i].room_id@ == room)
            ==> round.round_number == 1,
        room_round_numbers(after.rounds@, room) == room_round_numbers(before.rounds@, room).push(
            round.round_number as int,
        ),
{
    lemma_latest_is_highest(before.rounds@, room);
    lemma_round_numbers_push(before.rounds@, round, room);
}

} // verus!
