use nanoda::union_find::UnionFind;

#[test]
fn only_what_is_known_is_joined_with_itself() {
    let mut u = UnionFind::new();
    assert!(!u.equiv(7, 7));
    assert!(!u.equiv(7, 8));
    assert_eq!(u.len(), 0);
    u.union(7, 7);
    assert!(u.equiv(7, 7));
    assert_eq!(u.len(), 1);
}

#[test]
fn joining_goes_both_ways_and_on() {
    let mut u = UnionFind::new();
    u.union(1, 2);
    u.union(3, 2);
    assert!(u.equiv(2, 1));
    assert!(u.equiv(1, 3));
    assert!(!u.equiv(1, 4));
    u.union(4, 5);
    assert!(!u.equiv(1, 5));
    u.union(5, 1);
    assert!(u.equiv(4, 3));
}

#[test]
fn joining_twice_changes_nothing() {
    let mut u = UnionFind::new();
    u.union(10, 20);
    let n = u.len();
    u.union(20, 10);
    assert_eq!(u.len(), n);
    assert!(u.equiv(10, 20));
}

#[test]
fn long_chains_stay_joined() {
    let mut u = UnionFind::new();
    let mut i: usize = 0;
    while i < 200 {
        u.union(i, i + 1);
        i += 1;
    }
    assert!(u.equiv(0, 200));
    assert!(!u.equiv(0, 201));
}

#[test]
fn clearing_forgets() {
    let mut u = UnionFind::new();
    u.union(1, 2);
    u.clear();
    assert!(!u.equiv(1, 2));
    assert_eq!(u.len(), 0);
}
