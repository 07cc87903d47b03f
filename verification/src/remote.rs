//! Bookkeeping of remote players: forgetting players that left, and
//! numbering the local player's projectiles.

use vstd::prelude::*;
use std::collections::{HashMap, HashSet};

verus! {

broadcast use vstd::std_specs::hash::group_hash_axioms;

/// Forgets the players that left: their states and their spawned entities
/// are removed, the set of departures is emptied, and the removed entities
/// are returned (to be despawned), one per departed player that had one,
/// in the order the set is walked.
pub fn apply_departures<T, E>(
    departed_players: &mut HashSet<u64>,
    remote_states: &mut HashMap<u64, T>,
    spawned_entities: &mut HashMap<u64, E>,
) -> (despawn: Vec<E>)
    ensures
        final(departed_players)@ == Set::<u64>::empty(),
        final(remote_states)@ == old(remote_states)@.remove_keys(old(departed_players)@),
        final(spawned_entities)@ == old(spawned_entities)@.remove_keys(old(departed_players)@),
        exists|ks: Seq<u64>|
            {
                &&& ks.no_duplicates()
                &&& ks.to_set() == old(departed_players)@.intersect(old(spawned_entities)@.dom())
                &&& despawn@ == ks.map_values(|k: u64| old(spawned_entities)@[k])
            },
{
    let ghost gone = departed_players@;
    let ghost states0 = remote_states@;
    let ghost spawned0 = spawned_entities@;
    let mut despawn: Vec<E> = Vec::new();
    let ghost mut ks: Seq<u64> = Seq::empty();
    let ghost mut seen: Set<u64> = Set::empty();
    for id in it: departed_players.iter()
        invariant
            gone == departed_players@,
            it.seq().unref().to_set() == gone,
            it.seq().no_duplicates(),
            seen == it.seq().take(it.index() as int).unref().to_set(),
            it.index() == it.seq().len() ==> seen == gone,
            remote_states@ == states0.remove_keys(seen),
            spawned_entities@ == spawned0.remove_keys(seen),
            ks.no_duplicates(),
            ks.to_set() == seen.intersect(spawned0.dom()),
            despawn@ == ks.map_values(|k: u64| spawned0[k]),
    {
        let ghost k: u64 = *id;
        let ghost done = it.seq().take(it.index() as int).unref().to_set();
        proof {
            assert(it.seq()[it.index() as int] == id);
            assert(it.seq().take(it.index() + 1).unref() =~= it.seq().take(it.index() as int).unref().push(k));
            it.seq().take(it.index() as int).unref().lemma_push_to_set_commute(k);
            assert(it.seq().take(it.index() + 1).unref().to_set() =~= done.insert(k));
            assert(!done.contains(k)) by {
                if done.contains(k) {
                    let j = choose|j: int| 0 <= j < it.index() && it.seq().take(it.index() as int).unref()[j] == k;
                    assert(it.seq()[j] == it.seq()[it.index() as int]);
                }
            }
        }
        let ghost before = despawn@;
        remote_states.remove(id);
        match spawned_entities.remove(id) {
            Some(e) => {
                despawn.push(e);
                proof {
                    ks.lemma_push_to_set_commute(k);
                    assert(!ks.contains(k)) by {
                        if ks.contains(k) {
                            assert(ks.to_set().contains(k));
                        }
                    }
                    let nk = ks.push(k);
                    assert forall|a: int, b: int| 0 <= a < nk.len() && 0 <= b < nk.len() && a != b implies nk[a] != nk[b] by {
                        if a < ks.len() && b < ks.len() {
                            assert(nk[a] == ks[a] && nk[b] == ks[b]);
                        } else if a < ks.len() {
                            assert(nk[a] == ks[a]);
                            assert(ks.contains(nk[a]));
                        } else if b < ks.len() {
                            assert(nk[b] == ks[b]);
                            assert(ks.contains(nk[b]));
                        }
                    }
                    ks = nk;
                }
            },
            None => {},
        }
        proof {
            assert(remote_states@ =~= states0.remove_keys(done.insert(k)));
            assert(spawned_entities@ =~= spawned0.remove_keys(done.insert(k)));
            assert(ks.to_set() =~= done.insert(k).intersect(spawned0.dom()));
            assert(despawn@ =~= ks.map_values(|j: u64| spawned0[j]));
            if it.index() + 1 == it.seq().len() {
                assert(it.seq().take(it.index() + 1) =~= it.seq());
            }
            seen = seen.insert(k);
        }
    }
    departed_players.clear();
    despawn
}

/// Takes the queued freeze targets: whether the local player is among
/// them; the queue is emptied.
pub fn take_freeze_for(pending_freezes: &mut Vec<u64>, local_player: u64) -> (frozen: bool)
    ensures
        frozen == old(pending_freezes)@.contains(local_player),
        final(pending_freezes)@.len() == 0,
{
    let mut found = false;
    let mut i: usize = 0;
    while i < pending_freezes.len()
        invariant
            i <= pending_freezes@.len(),
            found == pending_freezes@.take(i as int).contains(local_player),
        decreases pending_freezes@.len() - i,
    {
        proof {
            assert(pending_freezes@.take(i + 1) =~= pending_freezes@.take(i as int).push(pending_freezes@[i as int]));
            vstd::seq_lib::lemma_seq_contains_after_push(pending_freezes@.take(i as int), pending_freezes@[i as int], local_player);
        }
        if pending_freezes[i] == local_player {
            found = true;
        }
        i = i + 1;
    }
    assert(pending_freezes@.take(pending_freezes@.len() as int) =~= pending_freezes@);
    pending_freezes.clear();
    found
}

/// Numbers the local player's projectiles.
#[derive(Debug, Clone, Copy, Default)]
pub struct ProjectileSequence {
    next_id: u32,
}

impl ProjectileSequence {
    /// The number the next projectile gets.
    pub closed spec fn upcoming(&self) -> u32 {
        self.next_id
    }

    /// A sequence that starts at 0.
    pub fn new() -> (s: Self)
        ensures
            s.upcoming() == 0,
    {
        ProjectileSequence { next_id: 0 }
    }

    /// Takes the next number; numbers wrap after 2^32 - 1.
    pub fn next_id(&mut self) -> (id: u32)
        ensures
            id == old(self).upcoming(),
            final(self).upcoming() == if id == u32::MAX {
                0
            } else {
                (id + 1) as u32
            },
    {
        let projectile_id = self.next_id;
        self.next_id = if self.next_id == u32::MAX {
            0
        } else {
            self.next_id + 1
        };
        projectile_id
    }
}

} // verus!
