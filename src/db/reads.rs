//! Listings and composite views of the store.

use vstd::prelude::*;
use crate::models::{
    Participant,
    Participation,
    ParticipationResponse,
    Room,
    RoomResponse,
    Round,
    RoundResponse,
    Score,
    SlamError,
};
use crate::store::{find_index, has_key, key_index, lemma_lookup_at, orders_distinct, Store};
use super::rooms::{by_room, inside_room, round_of_room};

verus! {

/// The most recently created rooms, newest first, at most ten.
pub open spec fn recent_rooms(rooms: Seq<Room>) -> Seq<Room> {
    let n = rooms.len();
    let m = if n < 10 { n } else { 10 };
    Seq::new(m, |i: int| rooms[n - 1 - i])
}

/// The ten most recently created rooms (fewer when there are fewer), newest
/// first. The rooms table holds rooms in the order they were created: a new
/// room is only ever appended, and removals keep the order of the rest. So
/// recency is read from position, not from the `created` text, which comes
/// from the system clock and is not relied on to increase.
pub fn retrieve_rooms(store: &Store) -> (r: Vec<Room>)
    ensures
        r@ == recent_rooms(store.rooms@),
{
    let n = store.rooms.len();
    let m: usize = if n < 10 { n } else { 10 };
    let mut out: Vec<Room> = Vec::new();
    let mut i: usize = 0;
    while i < m
        invariant
            n == store.rooms@.len(),
            m == (if n < 10 { n } else { 10 }),
            0 <= i <= m,
            out@.len() == i,
            forall|k: int| 0 <= k < i ==> #[trigger] out@[k] == store.rooms@[n - 1 - k],
        decreases m - i,
    {
        out.push(store.rooms[n - 1 - i].duplicate());
        i = i + 1;
    }
    proof {
        assert(out@ =~= recent_rooms(store.rooms@));
    }
    out
}

/// The rounds of room `room`, in order.
fn rounds_of(v: &Vec<Round>, room: &String) -> (r: Vec<Round>)
    ensures
        r@ == v@.filter(round_of_room(room@)),
{
    let mut out: Vec<Round> = Vec::new();
    let mut i: usize = 0;
    while i < v.len()
        invariant
            0 <= i <= v@.len(),
            out@ == v@.take(i as int).filter(round_of_room(room@)),
        decreases v@.len() - i,
    {
        proof {
            assert(v@.take(i as int + 1) =~= v@.take(i as int).push(v@[i as int]));
            v@.take(i as int).lemma_filter_push(v@[i as int], round_of_room(room@));
        }
        if v[i].room_id.eq(room) {
            out.push(v[i].duplicate());
        }
        i = i + 1;
    }
    proof {
        assert(v@.take(v@.len() as int) =~= v@);
    }
    out
}

/// Room `room_id_parameter` with its participants and its rounds, each in
/// the order stored.
///
/// Fails with `NotFound` when there is no such room.
pub fn retrieve_room(store: &Store, room_id_parameter: &str) -> (r: Result<RoomResponse, SlamError>)
    requires
        store.wf(),
    ensures
        match r {
            Ok(resp) => lookup_room(store, room_id_parameter@) == Some(resp.room)
                && resp.participants@ == store.participants@.filter(inside_room(room_id_parameter@))
                && resp.rounds@ == store.rounds@.filter(round_of_room(room_id_parameter@)),
            Err(e) => e == SlamError::NotFound && lookup_room(store, room_id_parameter@) is None,
        },
        r is Ok <==> has_key(store.rooms@, room_id_parameter@),
{
    let id = room_id_parameter.to_owned();
    match find_index(&store.rooms, &id) {
        Some(k) => {
            proof {
                lemma_lookup_at(store.rooms@, k as int);
            }
            Ok(
                RoomResponse {
                    room: store.rooms[k].duplicate(),
                    participants: by_room(&store.participants, &id, true),
                    rounds: rounds_of(&store.rounds, &id),
                },
            )
        },
        None => Err(SlamError::NotFound),
    }
}

/// The room with the id, if there is one.
pub open spec fn lookup_room(store: &Store, id: Seq<char>) -> Option<Room> {
    crate::store::lookup(store.rooms@, id)
}

/// The performances of round `rid`, in the order stored, each with its
/// performer; a performance whose performer no longer exists is left out.
pub open spec fn round_lineup(ps: Seq<Participation>, people: Seq<Participant>, rid: Seq<char>) -> Seq<
    ParticipationResponse,
>
    decreases ps.len(),
{
    if ps.len() == 0 {
        Seq::empty()
    } else {
        let before = round_lineup(ps.drop_last(), people, rid);
        let last = ps.last();
        if last.round_id@ == rid && has_key(people, last.participant_id@) {
            before.push(
                ParticipationResponse {
                    participation: last,
                    participant: people[key_index(people, last.participant_id@)],
                },
            )
        } else {
            before
        }
    }
}

/// The performances are in strictly ascending performance order.
pub open spec fn by_performance_order(s: Seq<ParticipationResponse>) -> bool {
    forall|i: int, j: int|
        0 <= i < j < s.len() ==> (#[trigger] s[i]).participation.performance_order
            < (#[trigger] s[j]).participation.performance_order
}

/// No two of the performances share a performance order.
pub open spec fn orders_unique(s: Seq<ParticipationResponse>) -> bool {
    forall|i: int, j: int|
        0 <= i < j < s.len() ==> (#[trigger] s[i]).participation.performance_order
            != (#[trigger] s[j]).participation.performance_order
}

/// `detail` is the joined performances of round `rid`, each once, in
/// strictly ascending performance order.
pub open spec fn round_detail(detail: Seq<ParticipationResponse>, store: Store, rid: Seq<char>) -> bool {
    &&& detail.to_multiset() == round_lineup(store.participations@, store.participants@, rid).to_multiset()
    &&& by_performance_order(detail)
}

/// The joined performances of one round come from that round, so, with
/// orders distinct within each round, their orders are distinct.
proof fn lemma_lineup_orders(ps: Seq<Participation>, people: Seq<Participant>, rid: Seq<char>)
    requires
        orders_distinct(ps),
    ensures
        orders_unique(round_lineup(ps, people, rid)),
        forall|a: int| 0 <= a < round_lineup(ps, people, rid).len() ==> exists|k: int|
            0 <= k < ps.len() && ps[k] == (#[trigger] round_lineup(ps, people, rid)[a]).participation
                && ps[k].round_id@ == rid,
    decreases ps.len(),
{
    if ps.len() > 0 {
        let dl = ps.drop_last();
        assert forall|i: int, j: int|
            0 <= i < j < dl.len() && (#[trigger] dl[i]).round_id@ == (#[trigger] dl[j]).round_id@
                implies dl[i].performance_order != dl[j].performance_order by {
            assert(dl[i] == ps[i] && dl[j] == ps[j]);
        }
        lemma_lineup_orders(dl, people, rid);
        let before = round_lineup(dl, people, rid);
        let l = round_lineup(ps, people, rid);
        let last = ps.last();
        assert forall|a: int| 0 <= a < l.len() implies exists|k: int|
            0 <= k < ps.len() && ps[k] == (#[trigger] l[a]).participation && ps[k].round_id@ == rid by {
            if a < before.len() {
                let k = choose|k: int|
                    0 <= k < dl.len() && dl[k] == (#[trigger] before[a]).participation
                        && dl[k].round_id@ == rid;
                assert(l[a] == before[a]);
                assert(ps[k] == dl[k]);
            } else {
                assert(ps[ps.len() - 1] == last);
            }
        }
        assert forall|i: int, j: int| 0 <= i < j < l.len() implies (#[trigger] l[i]).participation.performance_order
            != (#[trigger] l[j]).participation.performance_order by {
            if j < before.len() {
                assert(l[i] == before[i] && l[j] == before[j]);
            } else {
                let k = choose|k: int|
                    0 <= k < dl.len() && dl[k] == (#[trigger] before[i]).participation
                        && dl[k].round_id@ == rid;
                assert(l[i] == before[i]);
                assert(ps[k] == dl[k]);
                assert(ps[ps.len() - 1] == last);
                assert(l[j].participation == last);
            }
        }
    }
}

/// The same performances, which have distinct performance orders, in
/// strictly ascending performance order.
fn sort_by_order(v: Vec<ParticipationResponse>) -> (r: Vec<ParticipationResponse>)
    requires
        orders_unique(v@),
    ensures
        r@.to_multiset() == v@.to_multiset(),
        by_performance_order(r@),
{
    broadcast use vstd::seq_lib::group_to_multiset_ensures;
    broadcast use vstd::multiset::group_multiset_axioms;

    let ghost all = v@;
    let mut rest = v;
    let mut out: Vec<ParticipationResponse> = Vec::new();
    while rest.len() > 0
        invariant
            orders_unique(all),
            rest@.len() <= all.len(),
            rest@ == all.subrange(0, rest@.len() as int),
            out@.to_multiset().add(rest@.to_multiset()) == all.to_multiset(),
            by_performance_order(out@),
            forall|k: int, j: int| 0 <= k < out@.len() && 0 <= j < rest@.len()
                ==> (#[trigger] out@[k]).participation.performance_order
                    != (#[trigger] all[j]).participation.performance_order,
        decreases rest@.len(),
    {
        let ghost before_rest = rest@;
        let ghost m = rest@.len() - 1;
        let x = rest.pop().unwrap();
        proof {
            assert(rest@.push(x) =~= before_rest);
            assert(x == all[m]);
            assert(rest@ =~= all.subrange(0, rest@.len() as int));
        }
        let key = x.participation.performance_order;
        let mut p: usize = 0;
        while p < out.len() && out[p].participation.performance_order < key
            invariant
                0 <= p <= out@.len(),
                forall|k: int| 0 <= k < p ==> (#[trigger] out@[k]).participation.performance_order < key,
            decreases out@.len() - p,
        {
            p = p + 1;
        }
        let ghost before_out = out@;
        proof {
            if p < before_out.len() {
                assert(before_out[p as int].participation.performance_order != all[m].participation.performance_order);
            }
        }
        out.insert(p, x);
        proof {
            let s = out@;
            vstd::seq_lib::to_multiset_insert(before_out, p as int, x);
            vstd::seq_lib::to_multiset_build(rest@, x);
            assert(s.to_multiset() == before_out.to_multiset().insert(x));
            assert(before_rest.to_multiset() == rest@.to_multiset().insert(x));
            assert(out@.to_multiset().add(rest@.to_multiset()) =~= all.to_multiset());
            assert forall|i: int, j: int| 0 <= i < j < s.len() implies (#[trigger] s[i]).participation.performance_order
                < (#[trigger] s[j]).participation.performance_order by {
                if j < p {
                    assert(s[i] == before_out[i] && s[j] == before_out[j]);
                } else if j == p {
                    assert(s[i] == before_out[i]);
                } else if i == p {
                    assert(s[j] == before_out[j - 1]);
                    assert(before_out[p as int].participation.performance_order > key);
                    if j - 1 > p {
                        assert(before_out[p as int].participation.performance_order
                            < before_out[j - 1].participation.performance_order);
                    }
                } else if i < p {
                    assert(s[i] == before_out[i] && s[j] == before_out[j - 1]);
                } else {
                    assert(s[i] == before_out[i - 1] && s[j] == before_out[j - 1]);
                }
            }
            assert forall|k: int, j: int| 0 <= k < s.len() && 0 <= j < rest@.len()
                implies (#[trigger] s[k]).participation.performance_order
                    != (#[trigger] all[j]).participation.performance_order by {
                if k < p {
                    assert(s[k] == before_out[k]);
                } else if k == p {
                    assert(s[k] == all[m]);
                } else {
                    assert(s[k] == before_out[k - 1]);
                }
            }
        }
    }
    proof {
        assert(rest@.to_multiset() =~= vstd::multiset::Multiset::empty());
        assert(out@.to_multiset() =~= out@.to_multiset().add(rest@.to_multiset()));
    }
    out
}

/// Round `round_id_parameter` with its performances, each joined with its
/// performer, in ascending performance order. A performance whose performer
/// no longer exists is left out.
///
/// Fails with `NotFound` when there is no such round.
pub fn retrieve_round(store: &Store, round_id_parameter: &str) -> (r: Result<RoundResponse, SlamError>)
    requires
        store.wf(),
    ensures
        match r {
            Ok(resp) => has_key(store.rounds@, round_id_parameter@)
                && resp.round == store.rounds@[key_index(store.rounds@, round_id_parameter@)]
                && round_detail(resp.participations@, *store, round_id_parameter@),
            Err(e) => e == SlamError::NotFound && !has_key(store.rounds@, round_id_parameter@),
        },
{
    let rid = round_id_parameter.to_owned();
    match find_index(&store.rounds, &rid) {
        Some(k) => {
            proof {
                lemma_lookup_at(store.rounds@, k as int);
            }
            let round = store.rounds[k].duplicate();
            let mut out: Vec<ParticipationResponse> = Vec::new();
            let mut i: usize = 0;
            while i < store.participations.len()
                invariant
                    store.wf(),
                    0 <= i <= store.participations@.len(),
                    out@ == round_lineup(store.participations@.take(i as int), store.participants@, rid@),
                decreases store.participations@.len() - i,
            {
                proof {
                    assert(store.participations@.take(i as int + 1).drop_last()
                        =~= store.participations@.take(i as int));
                }
                let p = &store.participations[i];
                if p.round_id.eq(&rid) {
                    match find_index(&store.participants, &p.participant_id) {
                        Some(j) => {
                            proof {
                                lemma_lookup_at(store.participants@, j as int);
                            }
                            out.push(
                                ParticipationResponse {
                                    participation: p.duplicate(),
                                    participant: store.participants[j].duplicate(),
                                },
                            );
                        },
                        None => {},
                    }
                }
                i = i + 1;
            }
            proof {
                assert(store.participations@.take(store.participations@.len() as int)
                    =~= store.participations@);
            }
            proof {
                lemma_lineup_orders(store.participations@, store.participants@, rid@);
            }
            Ok(RoundResponse { round: round, participations: sort_by_order(out) })
        },
        None => Err(SlamError::NotFound),
    }
}

/// The participants of room `room_id_parameter` when it is present, else all
/// participants; in the order stored.
pub fn retrieve_participants(store: &Store, room_id_parameter: &Option<String>) -> (r: Vec<
    Participant,
>)
    ensures
        r@ == match room_id_parameter {
            Some(room) => store.participants@.filter(inside_room(room@)),
            None => store.participants@,
        },
{
    match room_id_parameter {
        Some(room) => by_room(&store.participants, room, true),
        None => {
            let mut out: Vec<Participant> = Vec::new();
            let mut i: usize = 0;
            while i < store.participants.len()
                invariant
                    0 <= i <= store.participants@.len(),
                    out@ == store.participants@.take(i as int),
                decreases store.participants@.len() - i,
            {
                out.push(store.participants[i].duplicate());
                proof {
                    assert(out@ =~= store.participants@.take(i as int + 1));
                }
                i = i + 1;
            }
            proof {
                assert(store.participants@.take(store.participants@.len() as int) =~= store.participants@);
            }
            out
        },
    }
}

/// Keeps the scores of participation `pid`.
pub open spec fn score_of(pid: Seq<char>) -> spec_fn(Score) -> bool {
    |s: Score| s.participation_id@ == pid
}

/// The scores of participation `participation_id_parameter` when it is
/// present, else all scores; in the order stored.
pub fn retrieve_scores(store: &Store, participation_id_parameter: &Option<String>) -> (r: Vec<Score>)
    ensures
        r@ == match participation_id_parameter {
            Some(pid) => store.scores@.filter(score_of(pid@)),
            None => store.scores@,
        },
{
    let mut out: Vec<Score> = Vec::new();
    let mut i: usize = 0;
    while i < store.scores.len()
        invariant
            0 <= i <= store.scores@.len(),
            out@ == match participation_id_parameter {
                Some(pid) => store.scores@.take(i as int).filter(score_of(pid@)),
                None => store.scores@.take(i as int),
            },
        decreases store.scores@.len() - i,
    {
        let s = &store.scores[i];
        proof {
            assert(store.scores@.take(i as int + 1) =~= store.scores@.take(i as int).push(*s));
        }
        match participation_id_parameter {
            Some(pid) => {
                proof {
                    store.scores@.take(i as int).lemma_filter_push(*s, score_of(pid@));
                }
                if s.participation_id.eq(pid) {
                    out.push(s.duplicate());
                }
            },
            None => {
                out.push(s.duplicate());
            },
        }
        i = i + 1;
    }
    proof {
        assert(store.scores@.take(store.scores@.len() as int) =~= store.scores@);
    }
    out
}

} // verus!
