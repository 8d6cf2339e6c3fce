use replay_memory::{render_texts, OutOfRange, ReplayMemory};

fn filled(capacity: usize, count: i64) -> ReplayMemory<i64> {
    let mut rb = ReplayMemory::new(capacity);
    for i in 0..count {
        rb.push(i);
    }
    rb
}

#[test]
fn overwrites_oldest() {
    let rb = filled(5, 6);
    assert_eq!(rb.items(), &vec![5, 1, 2, 3, 4]);
}

#[test]
fn capacity_unchanged() {
    let rb = filled(5, 500);
    assert_eq!(rb.items().capacity(), 5);
    assert_eq!(rb.len(), 5);
}

#[test]
fn samples() {
    let rb = filled(5, 5);
    assert_eq!(rb.sample(3).len(), 3);
}

#[test]
fn wraps_more_than_once() {
    let rb = filled(3, 8);
    assert_eq!(rb.items(), &vec![6, 7, 5]);
}

#[test]
fn fills_in_arrival_order() {
    let rb = filled(5, 3);
    assert_eq!(rb.items(), &vec![0, 1, 2]);
    assert!(!rb.is_full());
    assert!(!rb.is_empty());
}

#[test]
fn push_items_matches_single_pushes() {
    let mut rb = ReplayMemory::new(4);
    rb.push_items(vec![10, 11, 12, 13, 14, 15]);
    assert_eq!(rb.items(), &vec![14, 15, 12, 13]);
    assert_eq!(rb.items(), filled_from(4, &[10, 11, 12, 13, 14, 15]).items());
}

fn filled_from(capacity: usize, values: &[i64]) -> ReplayMemory<i64> {
    let mut rb = ReplayMemory::new(capacity);
    for v in values {
        rb.push(*v);
    }
    rb
}

#[test]
fn new_memory_is_empty() {
    let rb: ReplayMemory<i64> = ReplayMemory::new(5);
    assert_eq!(rb.len(), 0);
    assert!(rb.is_empty());
    assert!(!rb.is_full());
    assert_eq!(rb.items().capacity(), 5);
}

#[test]
fn full_once_capacity_reached() {
    let rb = filled(5, 5);
    assert!(rb.is_full());
    assert!(!rb.is_empty());
}

#[test]
fn get_within_and_past_length() {
    let mut rb = ReplayMemory::new(4);
    for n in 0..6i64 {
        let len = rb.len();
        for i in 0..len {
            assert_eq!(rb.get(i), Ok(&rb.items()[i]));
        }
        assert_eq!(rb.get(len), Err(OutOfRange { index: len, len }));
        assert_eq!(rb.get(len + 7), Err(OutOfRange { index: len + 7, len }));
        rb.push(n);
    }
    assert_eq!(rb.get(0), Ok(&4));
    assert_eq!(rb.get(1), Ok(&5));
    assert_eq!(rb.get(2), Ok(&2));
}

#[test]
fn sample_draws_distinct_slots() {
    let rb = filled(5, 5);
    for _ in 0..200 {
        let mut s = rb.sample(3);
        assert_eq!(s.len(), 3);
        assert!(s.iter().all(|v| (0..5).contains(v)));
        s.sort();
        s.dedup();
        assert_eq!(s.len(), 3);
    }
}

#[test]
fn sample_everything_is_a_permutation() {
    let rb = filled(5, 5);
    let mut s = rb.sample(5);
    s.sort();
    assert_eq!(s, vec![0, 1, 2, 3, 4]);
}

#[test]
fn sample_under_fill_returns_what_is_held() {
    let rb = filled(10, 3);
    let mut s = rb.sample(8);
    assert_eq!(s.len(), 3);
    s.sort();
    assert_eq!(s, vec![0, 1, 2]);
    let empty: ReplayMemory<i64> = ReplayMemory::new(4);
    assert!(empty.sample(2).is_empty());
}

#[test]
fn sample_at_follows_the_slots() {
    let rb = filled(5, 7);
    assert_eq!(rb.sample_at(&vec![0, 3, 1]), vec![5, 3, 6]);
    assert!(rb.sample_at(&vec![]).is_empty());
}

#[test]
fn sample_one_is_uniform() {
    let rb = filled(5, 5);
    let draws = 20000;
    let mut counts = [0usize; 5];
    for _ in 0..draws {
        let s = rb.sample(1);
        assert_eq!(s.len(), 1);
        counts[s[0] as usize] += 1;
    }
    for c in counts {
        let freq = c as f64 / draws as f64;
        assert!((freq - 0.2).abs() < 0.03, "frequency {} too far from 1/5", freq);
    }
}

#[test]
fn zero_capacity_never_holds_anything() {
    let mut rb: ReplayMemory<i64> = ReplayMemory::new(0);
    for i in 0..50 {
        rb.push(i);
    }
    rb.push_items(vec![1, 2, 3]);
    assert_eq!(rb.len(), 0);
    assert!(rb.is_empty());
    assert!(rb.is_full());
    assert_eq!(rb.get(0), Err(OutOfRange { index: 0, len: 0 }));
    assert!(rb.sample(3).is_empty());
    assert_eq!(rb.render(), "ReplayMemory([])");
}

#[test]
fn renders_empty() {
    let rb: ReplayMemory<i64> = ReplayMemory::new(3);
    assert_eq!(rb.render(), "ReplayMemory([])");
}

#[test]
fn renders_three_items() {
    let rb = filled(3, 3);
    assert_eq!(rb.render(), "ReplayMemory([0, 1, 2])");
}

#[test]
fn renders_in_slot_order_after_wrap() {
    let rb = filled(3, 4);
    assert_eq!(rb.render(), "ReplayMemory([3, 1, 2])");
}

#[test]
fn render_texts_joins_with_comma_space() {
    assert_eq!(render_texts(&vec![]), "ReplayMemory([])");
    assert_eq!(render_texts(&vec!["a".to_string()]), "ReplayMemory([a])");
    assert_eq!(
        render_texts(&vec!["x".to_string(), "yy".to_string(), "z".to_string()]),
        "ReplayMemory([x, yy, z])"
    );
}
