use karmabot::scores::{normalize, ScoreStore};

fn listed(store: &ScoreStore) -> Vec<(String, i32)> {
    let mut entries = store.snapshot();
    entries.sort();
    entries
}

#[test]
fn new_store_is_empty() {
    let store = ScoreStore::new();
    assert_eq!(listed(&store), vec![]);
    assert_eq!(store.get("anyone"), 0);
}

#[test]
fn absent_user_has_score_zero_and_no_entry() {
    let mut store = ScoreStore::new();
    store.set("alice", 3);
    assert_eq!(store.get("bob"), 0);
    assert_eq!(store.get(""), 0);
    assert_eq!(listed(&store), vec![("alice".to_string(), 3)]);
}

#[test]
fn get_or_init_creates_the_entry_at_zero() {
    let mut store = ScoreStore::new();
    assert_eq!(store.get_or_init("alice"), 0);
    assert_eq!(listed(&store), vec![("alice".to_string(), 0)]);
    store.set("alice", 9);
    assert_eq!(store.get_or_init("alice"), 9);
    assert_eq!(listed(&store), vec![("alice".to_string(), 9)]);
}

#[test]
fn set_overwrites_and_keeps_one_entry_per_user() {
    let mut store = ScoreStore::new();
    store.set("alice", 1);
    store.set("bob", -2);
    store.set("alice", 5);
    assert_eq!(store.get("alice"), 5);
    assert_eq!(store.get("bob"), -2);
    assert_eq!(listed(&store), vec![("alice".to_string(), 5), ("bob".to_string(), -2)]);
}

#[test]
fn names_are_told_apart_exactly() {
    let mut store = ScoreStore::new();
    store.set("alice", 1);
    store.set("Alice", 2);
    store.set("alice ", 3);
    assert_eq!(store.get("alice"), 1);
    assert_eq!(store.get("Alice"), 2);
    assert_eq!(store.get("alice "), 3);
    assert_eq!(listed(&store).len(), 3);
}

#[test]
fn snapshot_is_a_copy() {
    let mut store = ScoreStore::new();
    store.set("alice", 1);
    let before = store.snapshot();
    store.set("alice", 2);
    store.set("bob", 3);
    assert_eq!(before, vec![("alice".to_string(), 1)]);
    assert_eq!(listed(&store), vec![("alice".to_string(), 2), ("bob".to_string(), 3)]);
}

#[test]
fn normalize_all_takes_square_roots() {
    let mut store = ScoreStore::new();
    store.set("a", 4);
    store.set("b", 9);
    store.normalize_all();
    assert_eq!(listed(&store), vec![("a".to_string(), 2), ("b".to_string(), 3)]);
}

#[test]
fn normalize_all_rounds_down_and_lifts_negative_scores_to_zero() {
    let mut store = ScoreStore::new();
    store.set("a", 8);
    store.set("b", -9);
    store.set("c", 0);
    store.set("d", 1);
    store.set("e", i32::MAX);
    store.set("f", i32::MIN);
    store.normalize_all();
    assert_eq!(
        listed(&store),
        vec![
            ("a".to_string(), 2),
            ("b".to_string(), 0),
            ("c".to_string(), 0),
            ("d".to_string(), 1),
            ("e".to_string(), 46340),
            ("f".to_string(), 0),
        ]
    );
}

#[test]
fn normalize_all_on_an_empty_store() {
    let mut store = ScoreStore::new();
    store.normalize_all();
    assert_eq!(listed(&store), vec![]);
}

#[test]
fn normalize_exact_values() {
    assert_eq!(normalize(0), 0);
    assert_eq!(normalize(1), 1);
    assert_eq!(normalize(2), 1);
    assert_eq!(normalize(3), 1);
    assert_eq!(normalize(4), 2);
    assert_eq!(normalize(8), 2);
    assert_eq!(normalize(9), 3);
    assert_eq!(normalize(15), 3);
    assert_eq!(normalize(16), 4);
    assert_eq!(normalize(99), 9);
    assert_eq!(normalize(100), 10);
    assert_eq!(normalize(2147395599), 46339);
    assert_eq!(normalize(2147395600), 46340);
    assert_eq!(normalize(i32::MAX), 46340);
    assert_eq!(normalize(-1), 0);
    assert_eq!(normalize(-4), 0);
    assert_eq!(normalize(i32::MIN), 0);
}

#[test]
fn normalize_agrees_with_the_floating_point_root() {
    let mut v: i32 = 0;
    while v < 2_000_000 {
        assert_eq!(normalize(v), (v as f64).sqrt() as i32);
        v += 7;
    }
    for v in [-5, -1, i32::MIN, i32::MAX, i32::MAX - 1, 46340 * 46340 - 1] {
        assert_eq!(normalize(v), (v as f64).sqrt() as i32);
    }
}
