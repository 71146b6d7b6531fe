use emap::{EMap, Slot};

#[test]
fn insert_get_remove_scenario() {
    let mut m: EMap<i64, 8> = EMap::new();
    assert_eq!(0, m.len());
    assert_eq!(None, m.insert(3, 10));
    assert_eq!(1, m.len());
    assert_eq!(Some(10), m.insert(3, 20));
    assert_eq!(1, m.len());
    assert_eq!(Some(&20), m.get(3));
    assert_eq!(Some(20), m.remove(3));
    assert_eq!(0, m.len());
    assert_eq!(None, m.get(3));
}

#[test]
fn iterate_then_clear_scenario() {
    let mut m: EMap<i64, 4> = EMap::new();
    m.insert(0, 100);
    m.insert(1, 200);
    m.insert(2, 300);
    assert_eq!(vec![(0, 100), (1, 200), (2, 300)], m.iter());
    m.clear();
    assert_eq!(0, m.len());
    assert!(m.iter().is_empty());
}

#[test]
fn insert_then_get_returns_value() {
    let mut m: EMap<u32, 16> = EMap::new();
    for i in 0..16usize {
        m.insert(i, (i as u32) * 7 + 1);
        assert_eq!(Some(&((i as u32) * 7 + 1)), m.get(i));
    }
    assert_eq!(16, m.len());
}

#[test]
fn clear_twice_is_a_no_op() {
    let mut m: EMap<u8, 5> = EMap::new();
    m.insert(4, 1);
    m.insert(0, 2);
    m.clear();
    assert_eq!(0, m.len());
    assert!(m.iter().is_empty());
    m.clear();
    assert_eq!(0, m.len());
    assert!(m.iter().is_empty());
    for i in 0..5usize {
        assert!(!m.contains(i));
    }
}

#[test]
fn remove_then_get_is_absent() {
    let mut m: EMap<u8, 3> = EMap::new();
    m.insert(1, 9);
    assert_eq!(Some(9), m.remove(1));
    assert_eq!(None, m.get(1));
    assert_eq!(None, m.remove(1));
    assert_eq!(None, m.get(1));
    assert_eq!(None, m.remove(2));
    assert_eq!(None, m.get(2));
    assert_eq!(0, m.len());
}

#[test]
fn overwrite_returns_first_value_and_keeps_len() {
    let mut m: EMap<char, 6> = EMap::new();
    m.insert(0, 'z');
    assert_eq!(None, m.insert(5, 'a'));
    let before = m.len();
    assert_eq!(Some('a'), m.insert(5, 'b'));
    assert_eq!(before, m.len());
    assert_eq!(Some(&'b'), m.get(5));
}

#[test]
fn iteration_is_ascending_and_complete() {
    let mut m: EMap<i32, 10> = EMap::new();
    m.insert(7, -7);
    m.insert(2, -2);
    m.insert(9, -9);
    m.insert(0, 0);
    m.remove(2);
    m.insert(4, -4);
    let pairs = m.iter();
    assert_eq!(vec![(0, 0), (4, -4), (7, -7), (9, -9)], pairs);
    assert_eq!(m.len(), pairs.len());
}

#[test]
fn iteration_sees_state_at_its_start() {
    let mut m: EMap<i32, 3> = EMap::new();
    m.insert(1, 5);
    let first = m.iter();
    m.insert(0, 4);
    let second = m.iter();
    assert_eq!(vec![(1, 5)], first);
    assert_eq!(vec![(0, 4), (1, 5)], second);
}

#[test]
fn last_index_is_usable() {
    let mut m: EMap<u64, 100> = EMap::new();
    assert_eq!(None, m.insert(99, u64::MAX));
    assert!(m.contains(99));
    assert!(!m.contains(98));
    assert_eq!(Some(&u64::MAX), m.get(99));
    assert_eq!(vec![(99, u64::MAX)], m.iter());
}

#[test]
fn get_mut_changes_the_stored_value() {
    let mut m: EMap<i64, 4> = EMap::new();
    m.insert(2, 1);
    if let Some(v) = m.get_mut(2) {
        *v = 11;
    }
    assert_eq!(Some(&11), m.get(2));
    assert_eq!(1, m.len());
    assert!(m.get_mut(3).is_none());
    assert_eq!(1, m.len());
}

#[test]
fn contains_and_is_empty_follow_contents() {
    let mut m: EMap<bool, 2> = EMap::new();
    assert!(m.is_empty());
    assert!(!m.contains(0));
    m.insert(0, false);
    assert!(m.contains(0));
    assert!(!m.is_empty());
    m.remove(0);
    assert!(m.is_empty());
}

#[test]
fn benchmark_workload_on_map() {
    let mut m: EMap<i64, 100> = EMap::new();
    let mut sum: i64 = 0;
    for _ in 0..10 {
        m.clear();
        m.insert(0, 42);
        for i in 1..99usize {
            m.insert(i, i as i64);
            assert_eq!(i as i64, *m.get(i).unwrap());
        }
        for i in 1..99usize {
            m.remove(i);
        }
        if m.iter().iter().any(|(_k, v)| *v == 0) {
            m.clear();
        }
        let found = m.iter().into_iter().find(|(_k, v)| *v == 42).unwrap();
        sum += found.1;
    }
    assert_eq!(420, sum);
    assert_eq!(1, m.len());
}

#[test]
fn slot_lifecycle() {
    let mut s: Slot<u16> = Slot::vacant();
    assert!(!s.is_occupied());
    assert_eq!(None, s.read());
    s.write(3);
    assert!(s.is_occupied());
    assert_eq!(Some(&3), s.read());
    s.write(4);
    assert_eq!(Some(&4), s.read());
    s.clear();
    assert!(!s.is_occupied());
    assert_eq!(None, s.read());
}
