//! Recording the timing and notes of performances.

use vstd::prelude::*;
use crate::models::Participation;
use crate::scoring::{deduction_of, time_deduction};
use crate::store::{find_index, has_key, key_index, lemma_lookup_at, lemma_update_unique, Store};

verus! {

/// The participation after a timing update: present notes and length
/// replace the old ones; a present length also replaces the deduction with
/// the one for that length, which is none at or under the limit. The result
/// is never touched.
pub open spec fn timed(p: Participation, notes: Option<String>, length: Option<i32>) -> Participation {
    Participation {
        performance_notes: if notes is Some { notes } else { p.performance_notes },
        performance_length_in_seconds: if length is Some { length } else {
            p.performance_length_in_seconds
        },
        deduction: match length {
            Some(l) => match deduction_of(l as int) {
                Some(d) => Some(d as i64),
                None => None,
            },
            None => p.deduction,
        },
        ..p
    }
}

/// Records the length and notes of performance `id_value`, each only when
/// present; a present length recomputes (overwrites) the deduction. With
/// both absent nothing changes. Returns the number of performances found: 1,
/// or 0 when there is no such performance.
pub fn update_participation(
    store: &mut Store,
    id_value: String,
    notes_value: Option<String>,
    length_value: Option<i32>,
) -> (r: usize)
    requires
        old(store).wf(),
    ensures
        final(store).wf(),
        r == if has_key(old(store).participations@, id_value@) { 1usize } else { 0usize },
        final(store).participations@ == if has_key(old(store).participations@, id_value@) {
            let k = key_index(old(store).participations@, id_value@);
            old(store).participations@.update(
                k,
                timed(old(store).participations@[k], notes_value, length_value),
            )
        } else {
            old(store).participations@
        },
        final(store).rooms@ == old(store).rooms@,
        final(store).participants@ == old(store).participants@,
        final(store).rounds@ == old(store).rounds@,
        final(store).scores@ == old(store).scores@,
{
    match find_index(&store.participations, &id_value) {
        Some(k) => {
            proof {
                lemma_lookup_at(store.participations@, k as int);
            }
            let mut updated = store.participations[k].duplicate();
            if notes_value.is_some() {
                updated.performance_notes = notes_value;
            }
            match length_value {
                Some(l) => {
                    updated.performance_length_in_seconds = Some(l);
                    updated.deduction = time_deduction(l);
                },
                None => {},
            }
            proof {
                lemma_update_unique(store.participations@, k as int, updated);
            }
            store.participations.set(k, updated);
            1
        },
        None => 0,
    }
}

} // verus!
