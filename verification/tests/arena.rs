use wgui::handle::{Arena, Handle};

#[test]
fn add_then_get_returns_the_value() {
    let mut arena: Arena<u32> = Arena::new();
    assert_eq!(arena.count(), 0);
    let a = arena.add(10);
    let b = arena.add(20);
    assert_eq!(arena.get(&a), Some(&10));
    assert_eq!(arena.get(&b), Some(&20));
    assert_eq!(arena.count(), 2);
    assert_eq!(a, Handle { idx: 0, generation: 1 });
    assert_eq!(b, Handle { idx: 1, generation: 2 });
    assert!(arena.contains(&a));
}

#[test]
fn next_handle_is_the_handle_of_the_next_add() {
    let mut arena: Arena<u32> = Arena::new();
    let a = arena.add(1);
    let _b = arena.add(2);
    arena.remove(&a);
    let next = arena.next_handle();
    assert_eq!(next, Handle { idx: 0, generation: 3 });
    assert_eq!(arena.add(3), next);
}

#[test]
fn removed_handle_stays_dead_when_the_slot_is_reused() {
    let mut arena: Arena<u32> = Arena::new();
    let a = arena.add(10);
    let b = arena.add(20);
    arena.remove(&a);
    assert_eq!(arena.get(&a), None);
    assert_eq!(arena.get(&b), Some(&20));
    let c = arena.add(30);
    assert_eq!(c.idx, a.idx);
    assert_ne!(c.generation, a.generation);
    assert_eq!(arena.get(&a), None);
    assert!(!arena.contains(&a));
    assert_eq!(arena.get(&c), Some(&30));
    assert_eq!(arena.count(), 2);
}

#[test]
fn handle_lives_until_it_is_removed() {
    let mut arena: Arena<u32> = Arena::new();
    let kept = arena.add(7);
    let mut others = Vec::new();
    for i in 0..10u32 {
        others.push(arena.add(100 + i));
    }
    for h in others.iter().step_by(2) {
        arena.remove(h);
    }
    for i in 0..5u32 {
        arena.add(200 + i);
    }
    assert_eq!(arena.get(&kept), Some(&7));
    for (i, h) in others.iter().enumerate() {
        if i % 2 == 0 {
            assert_eq!(arena.get(h), None);
        } else {
            assert_eq!(arena.get(h), Some(&(100 + i as u32)));
        }
    }
    arena.remove(&kept);
    assert_eq!(arena.get(&kept), None);
    arena.add(8);
    assert_eq!(arena.get(&kept), None);
}

#[test]
fn add_fills_the_first_free_slot() {
    let mut arena: Arena<u32> = Arena::new();
    let a = arena.add(1);
    let b = arena.add(2);
    let c = arena.add(3);
    arena.remove(&b);
    arena.remove(&a);
    let d = arena.add(4);
    assert_eq!(d, Handle { idx: 0, generation: 4 });
    let e = arena.add(5);
    assert_eq!(e, Handle { idx: 1, generation: 5 });
    let f = arena.add(6);
    assert_eq!(f, Handle { idx: 3, generation: 6 });
    assert_eq!(arena.get(&c), Some(&3));
}

#[test]
fn remove_trims_the_empty_tail() {
    let mut arena: Arena<u32> = Arena::new();
    let a = arena.add(1);
    let b = arena.add(2);
    let c = arena.add(3);
    arena.remove(&b);
    arena.remove(&c);
    // the tail is gone: the next value goes where `b` was
    let d = arena.add(4);
    assert_eq!(d.idx, 1);
    assert_eq!(arena.handles(), vec![a, d]);
    arena.remove(&a);
    arena.remove(&d);
    assert_eq!(arena.count(), 0);
    assert_eq!(arena.handles(), vec![]);
    assert_eq!(arena.add(5).idx, 0);
}

#[test]
fn remove_ignores_stale_and_unknown_handles() {
    let mut arena: Arena<u32> = Arena::new();
    let a = arena.add(1);
    arena.remove(&Handle { idx: 5, generation: 1 });
    arena.remove(&Handle { idx: 0, generation: 9 });
    assert_eq!(arena.count(), 1);
    assert_eq!(arena.get(&a), Some(&1));
    assert_eq!(arena.get(&Handle { idx: 5, generation: 1 }), None);
    assert_eq!(arena.get(&Handle { idx: 0, generation: 0 }), None);
    arena.remove(&a);
    arena.remove(&a);
    assert_eq!(arena.count(), 0);
}

#[test]
fn get_mut_changes_the_value_in_place() {
    let mut arena: Arena<u32> = Arena::new();
    let a = arena.add(1);
    let b = arena.add(2);
    *arena.get_mut(&a).unwrap() = 50;
    assert_eq!(arena.get(&a), Some(&50));
    assert_eq!(arena.get(&b), Some(&2));
    assert!(arena.get_mut(&Handle { idx: 0, generation: 2 }).is_none());
    assert!(arena.get_mut(&Handle { idx: 9, generation: 1 }).is_none());
    assert_eq!(arena.count(), 2);
}

#[test]
fn handles_lists_the_live_handles_by_index() {
    let mut arena: Arena<u32> = Arena::new();
    let a = arena.add(1);
    let b = arena.add(2);
    let c = arena.add(3);
    arena.remove(&b);
    assert_eq!(arena.handles(), vec![a, c]);
}

#[test]
fn room_is_there_in_a_small_arena() {
    let mut arena: Arena<u32> = Arena::new();
    assert!(arena.has_room());
    arena.add(1);
    assert!(arena.has_room());
    assert_eq!(arena.room_left(), 0xffff_ffff - 1);
}

#[test]
fn unset_handle_is_not_set() {
    let mut h = Handle { idx: 3, generation: 4 };
    assert!(h.is_set());
    assert_eq!(h.id(), 3);
    h.reset();
    assert!(!h.is_set());
    assert_eq!(h.id(), 3);
    assert!(!Handle::unset().is_set());
}

#[test]
fn find_returns_the_first_match_by_index() {
    let mut arena: Arena<u32> = Arena::new();
    let a = arena.add(5);
    let b = arena.add(8);
    let c = arena.add(8);
    assert_eq!(arena.find(|_, v| *v == 8), Some(b));
    assert_eq!(arena.find(|h, _| h == c), Some(c));
    assert_eq!(arena.find(|_, v| *v == 9), None);
    arena.remove(&b);
    assert_eq!(arena.find(|_, v| *v == 8), Some(c));
    assert_eq!(arena.find(|_, _| true), Some(a));
}
