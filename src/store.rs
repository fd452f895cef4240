//! The entity store: one table per kind of record, each keyed by a unique
//! text id, with the lookups and filters that the operations are stated in.

use vstd::prelude::*;
use crate::models::{Participant, Participation, Room, Round, Score};

verus! {

broadcast use vstd::seq_lib::group_filter_ensures;

/// A record of a table, keyed by its id.
pub trait Record: Sized {
    spec fn key(&self) -> Seq<char>;

    fn id_text(&self) -> (r: &String)
        ensures
            r@ == self.key(),
    ;

    fn copied(&self) -> (r: Self)
        ensures
            r == *self,
    ;
}

impl Record for Room {
    open spec fn key(&self) -> Seq<char> {
        self.id@
    }

    fn id_text(&self) -> (r: &String) {
        &self.id
    }

    fn copied(&self) -> (r: Self) {
        self.duplicate()
    }
}

impl Record for Participant {
    open spec fn key(&self) -> Seq<char> {
        self.id@
    }

    fn id_text(&self) -> (r: &String) {
        &self.id
    }

    fn copied(&self) -> (r: Self) {
        self.duplicate()
    }
}

impl Record for Score {
    open spec fn key(&self) -> Seq<char> {
        self.id@
    }

    fn id_text(&self) -> (r: &String) {
        &self.id
    }

    fn copied(&self) -> (r: Self) {
        self.duplicate()
    }
}

impl Record for Round {
    open spec fn key(&self) -> Seq<char> {
        self.id@
    }

    fn id_text(&self) -> (r: &String) {
        &self.id
    }

    fn copied(&self) -> (r: Self) {
        self.duplicate()
    }
}

impl Record for Participation {
    open spec fn key(&self) -> Seq<char> {
        self.id@
    }

    fn id_text(&self) -> (r: &String) {
        &self.id
    }

    fn copied(&self) -> (r: Self) {
        self.duplicate()
    }
}

/// No two records of the table share an id.
pub open spec fn keys_unique<T: Record>(s: Seq<T>) -> bool {
    forall|i: int, j: int| 0 <= i < j < s.len() ==> #[trigger] s[i].key() != #[trigger] s[j].key()
}

/// Some record of the table has the id.
pub open spec fn has_key<T: Record>(s: Seq<T>, id: Seq<char>) -> bool {
    exists|i: int| 0 <= i < s.len() && #[trigger] s[i].key() == id
}

/// Position of a record with the id (meaningful where `has_key` holds).
pub open spec fn key_index<T: Record>(s: Seq<T>, id: Seq<char>) -> int {
    choose|i: int| 0 <= i < s.len() && #[trigger] s[i].key() == id
}

/// The record with the id, if there is one.
pub open spec fn lookup<T: Record>(s: Seq<T>, id: Seq<char>) -> Option<T> {
    if has_key(s, id) {
        Some(s[key_index(s, id)])
    } else {
        None
    }
}

/// Keeps the records whose id differs from `id`.
pub open spec fn key_differs<T: Record>(id: Seq<char>) -> spec_fn(T) -> bool {
    |r: T| r.key() != id
}

/// In a table with unique ids, the record at `i` is the one its id finds.
pub proof fn lemma_lookup_at<T: Record>(s: Seq<T>, i: int)
    requires
        keys_unique(s),
        0 <= i < s.len(),
    ensures
        has_key(s, s[i].key()),
        key_index(s, s[i].key()) == i,
        lookup(s, s[i].key()) == Some(s[i]),
{
    let k = key_index(s, s[i].key());
    assert(0 <= k < s.len() && s[k].key() == s[i].key());
}

/// Filtering a table keeps its ids unique.
pub proof fn lemma_filter_unique<T: Record>(s: Seq<T>, p: spec_fn(T) -> bool)
    requires
        keys_unique(s),
    ensures
        keys_unique(s.filter(p)),
    decreases s.len(),
{
    reveal(Seq::filter);
    if s.len() > 0 {
        let rest = s.drop_last();
        lemma_filter_unique(rest, p);
        let f = rest.filter(p);
        if p(s.last()) {
            assert forall|k: int| 0 <= k < f.len() implies #[trigger] f[k].key() != s.last().key() by {
                assert(f.contains(f[k]));
                rest.lemma_filter_contains_rev(p, f[k]);
            }
            let g = f.push(s.last());
            assert forall|i: int, j: int| 0 <= i < j < g.len() implies #[trigger] g[i].key()
                != #[trigger] g[j].key() by {
                if j == g.len() - 1 {
                    assert(g[i] == f[i]);
                }
            }
        }
    }
}

/// After a record leaves a filtered table, its id is no longer found there.
pub proof fn lemma_filter_drops<T: Record>(s: Seq<T>, p: spec_fn(T) -> bool, id: Seq<char>)
    requires
        forall|i: int| 0 <= i < s.len() && #[trigger] s[i].key() == id ==> !p(s[i]),
    ensures
        !has_key(s.filter(p), id),
{
    let f = s.filter(p);
    if has_key(f, id) {
        let k = key_index(f, id);
        assert(f.contains(f[k]));
        s.lemma_filter_contains_rev(p, f[k]);
        assert(p(f[k]));
    }
}

/// Replacing a record by one with the same id keeps the ids unique.
pub proof fn lemma_update_unique<T: Record>(s: Seq<T>, k: int, x: T)
    requires
        keys_unique(s),
        0 <= k < s.len(),
        x.key() == s[k].key(),
    ensures
        keys_unique(s.update(k, x)),
{
    let u = s.update(k, x);
    assert forall|i: int, j: int| 0 <= i < j < u.len() implies #[trigger] u[i].key()
        != #[trigger] u[j].key() by {
        assert(u[i].key() == s[i].key());
        assert(u[j].key() == s[j].key());
    }
}

/// Appending a record with a new id keeps the ids unique.
pub proof fn lemma_push_unique<T: Record>(s: Seq<T>, x: T)
    requires
        keys_unique(s),
        !has_key(s, x.key()),
    ensures
        keys_unique(s.push(x)),
{
    let u = s.push(x);
    assert forall|i: int, j: int| 0 <= i < j < u.len() implies #[trigger] u[i].key()
        != #[trigger] u[j].key() by {
        assert(u[i] == s[i]);
        if j < s.len() {
            assert(u[j] == s[j]);
        }
    }
}

/// Position of the record with the id, searched from the front.
pub fn find_index<T: Record>(v: &Vec<T>, id: &String) -> (r: Option<usize>)
    ensures
        match r {
            Some(i) => i < v@.len() && v@[i as int].key() == id@,
            None => !has_key(v@, id@),
        },
{
    let mut i: usize = 0;
    while i < v.len()
        invariant
            0 <= i <= v@.len(),
            forall|k: int| 0 <= k < i ==> #[trigger] v@[k].key() != id@,
        decreases v@.len() - i,
    {
        if v[i].id_text().eq(id) {
            return Some(i);
        }
        i = i + 1;
    }
    None
}

/// The records of the table whose id differs from `id`, in order.
pub fn without_key<T: Record>(v: &Vec<T>, id: &String) -> (r: Vec<T>)
    ensures
        r@ == v@.filter(key_differs(id@)),
{
    let mut out: Vec<T> = Vec::new();
    let mut i: usize = 0;
    while i < v.len()
        invariant
            0 <= i <= v@.len(),
            out@ == v@.take(i as int).filter(key_differs(id@)),
        decreases v@.len() - i,
    {
        proof {
            assert(v@.take(i as int + 1) =~= v@.take(i as int).push(v@[i as int]));
            v@.take(i as int).lemma_filter_push(v@[i as int], key_differs(id@));
        }
        if !v[i].id_text().eq(id) {
            out.push(v[i].copied());
        }
        i = i + 1;
    }
    proof {
        assert(v@.take(v@.len() as int) =~= v@);
    }
    out
}

/// Within one round, no two performances share a performance order.
pub open spec fn orders_distinct(ps: Seq<Participation>) -> bool {
    forall|i: int, j: int|
        0 <= i < j < ps.len() && (#[trigger] ps[i]).round_id@ == (#[trigger] ps[j]).round_id@
            ==> ps[i].performance_order != ps[j].performance_order
}

/// Replacing a performance by one of the same round and order keeps the
/// orders within each round distinct.
pub proof fn lemma_update_orders(ps: Seq<Participation>, k: int, x: Participation)
    requires
        orders_distinct(ps),
        0 <= k < ps.len(),
        x.round_id == ps[k].round_id,
        x.performance_order == ps[k].performance_order,
    ensures
        orders_distinct(ps.update(k, x)),
{
    let u = ps.update(k, x);
    assert forall|i: int, j: int|
        0 <= i < j < u.len() && (#[trigger] u[i]).round_id@ == (#[trigger] u[j]).round_id@
            implies u[i].performance_order != u[j].performance_order by {
        assert(u[i].round_id == ps[i].round_id && u[i].performance_order == ps[i].performance_order);
        assert(u[j].round_id == ps[j].round_id && u[j].performance_order == ps[j].performance_order);
    }
}

/// Every record of the event, table by table.
#[derive(Debug)]
pub struct Store {
    pub rooms: Vec<Room>,
    pub participants: Vec<Participant>,
    pub rounds: Vec<Round>,
    pub participations: Vec<Participation>,
    pub scores: Vec<Score>,
}

impl Store {
    /// Ids are unique within each table, every performance belongs to a
    /// stored round, performance orders within a round are distinct, and
    /// round numbers start at 1.
    pub open spec fn wf(&self) -> bool {
        &&& keys_unique(self.rooms@)
        &&& keys_unique(self.participants@)
        &&& keys_unique(self.rounds@)
        &&& keys_unique(self.participations@)
        &&& keys_unique(self.scores@)
        &&& orders_distinct(self.participations@)
        &&& forall|i: int| 0 <= i < self.rounds@.len() ==> #[trigger] self.rounds@[i].round_number >= 1
        &&& forall|i: int| 0 <= i < self.participations@.len() ==> has_key(
            self.rounds@,
            #[trigger] self.participations@[i].round_id@,
        )
    }

    /// An empty store.
    pub fn new() -> (r: Store)
        ensures
            r.wf(),
            r.rooms@.len() == 0,
            r.participants@.len() == 0,
            r.rounds@.len() == 0,
            r.participations@.len() == 0,
            r.scores@.len() == 0,
    {
        Store {
            rooms: Vec::new(),
            participants: Vec::new(),
            rounds: Vec::new(),
            participations: Vec::new(),
            scores: Vec::new(),
        }
    }
}

} // verus!
