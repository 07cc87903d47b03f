use std::collections::{HashMap, HashSet};

use learning::remote::{apply_departures, take_freeze_for, ProjectileSequence};

#[test]
fn departures_forget_states_and_entities() {
    let mut departed: HashSet<u64> = [1, 2, 9].into_iter().collect();
    let mut states: HashMap<u64, &str> = [(1, "a"), (2, "b"), (3, "c")].into_iter().collect();
    let mut spawned: HashMap<u64, u32> = [(1, 100), (3, 300), (9, 900)].into_iter().collect();
    let mut despawn = apply_departures(&mut departed, &mut states, &mut spawned);
    despawn.sort();
    assert_eq!(despawn, vec![100, 900]);
    assert!(departed.is_empty());
    assert_eq!(states.len(), 1);
    assert_eq!(states[&3], "c");
    assert_eq!(spawned.len(), 1);
    assert_eq!(spawned[&3], 300);
}

#[test]
fn projectile_numbers_count_up_and_wrap() {
    let mut seq = ProjectileSequence::new();
    assert_eq!(seq.next_id(), 0);
    assert_eq!(seq.next_id(), 1);
    let mut d = ProjectileSequence::default();
    assert_eq!(d.next_id(), 0);
    for _ in 0..3 {
        d.next_id();
    }
    assert_eq!(d.next_id(), 4);
}

#[test]
fn freeze_queue_is_taken_whole() {
    let mut pending = vec![4u64, 7, 4];
    assert!(take_freeze_for(&mut pending, 7));
    assert!(pending.is_empty());
    let mut others = vec![1u64, 2];
    assert!(!take_freeze_for(&mut others, 7));
    assert!(others.is_empty());
    let mut empty: Vec<u64> = Vec::new();
    assert!(!take_freeze_for(&mut empty, 0));
}
