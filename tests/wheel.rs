use random_wheel::RandomWheel;

#[test]
fn test_peek_and_pop_to_empty() {
    let value = 'r';
    let mut wheel = RandomWheel::new();

    wheel.push(1, value);
    assert_eq!(wheel.peek(), Some((1, &value)));
    assert_eq!(wheel.pop(), Some((1, value)));
    assert_eq!(wheel.pop(), None);
}

#[test]
fn test_iterable() {
    let value = 'r';
    let mut wheel = RandomWheel::new();

    wheel.push(1, value);

    while let Some((prob, actual_value)) = wheel.next() {
        assert_eq!(prob, 1);
        assert_eq!(value, actual_value);
    }

    assert_eq!(wheel.len(), 0);
}

#[test]
fn test_clear() {
    let mut wheel = RandomWheel::new();

    wheel.push(1, 'a');
    wheel.push(1, 'c');
    wheel.push(1, 'f');
    wheel.push(1, 'r');
    wheel.push(1, 'z');
    assert_eq!(wheel.len(), 5);

    wheel.clear();
    assert_eq!(wheel.len(), 0);
    assert_eq!(wheel.peek(), None);
    assert_eq!(wheel.pop(), None);
}

// Weights are whole numbers: these are the weights 1, 0.5, 1.5, 3 and 5.5
// counted in halves, whose sum, 11.5, is 23 halves.
#[test]
fn test_proba_sum() {
    let mut wheel = RandomWheel::new();

    wheel.push(2, 'a');
    wheel.push(1, 'c');
    wheel.push(3, 'f');
    wheel.push(6, 'r');
    wheel.push(11, 'z');
    assert_eq!(wheel.proba_sum(), 23);
}

#[test]
fn weight_sum_follows_every_push() {
    let mut wheel = RandomWheel::new();
    let weights: Vec<u64> = vec![3, 1, 4, 1, 5, 9, 2, 6];
    let mut expected: u64 = 0;
    for (i, w) in weights.iter().enumerate() {
        wheel.push(*w, i);
        expected += *w;
        assert_eq!(wheel.proba_sum(), expected);
    }
    assert_eq!(wheel.proba_sum(), 31);
    assert_eq!(wheel.len(), 8);
}

#[test]
fn popping_hands_out_every_entry_once() {
    let mut wheel = RandomWheel::new();
    for i in 0..10u32 {
        wheel.push((i % 3 + 1) as u64, i);
    }
    let mut seen: Vec<u32> = Vec::new();
    for _ in 0..10 {
        let (w, item) = wheel.pop().expect("a non-empty wheel yields an entry");
        assert_eq!(w, (item % 3 + 1) as u64);
        seen.push(item);
    }
    assert_eq!(wheel.pop(), None);
    assert_eq!(wheel.len(), 0);
    assert_eq!(wheel.proba_sum(), 0);
    seen.sort();
    assert_eq!(seen, (0..10u32).collect::<Vec<u32>>());
}

#[test]
fn next_drains_the_wheel() {
    let mut wheel = RandomWheel::from_vec(vec!['p', 'q', 's']);
    let mut seen: Vec<char> = Vec::new();
    while let Some((w, item)) = wheel.next() {
        assert_eq!(w, 1);
        seen.push(item);
    }
    seen.sort();
    assert_eq!(seen, vec!['p', 'q', 's']);
    assert!(wheel.is_empty());
}

#[test]
fn single_entry_is_always_selected() {
    let mut wheel = RandomWheel::new();
    wheel.push(7, "only");
    for _ in 0..100 {
        assert_eq!(wheel.peek(), Some((7, &"only")));
    }
    for d in [0u64, 3, 6, 7, 1000] {
        assert_eq!(wheel.select_index(d), Some(0));
    }
    assert_eq!(wheel.pop(), Some((7, "only")));
    assert_eq!(wheel.pop(), None);
}

#[test]
fn peek_frequency_follows_weights() {
    let mut wheel = RandomWheel::new();
    wheel.push(5, 'a');
    wheel.push(1, 'b');
    assert_eq!(wheel.proba_sum(), 6);
    assert_eq!(wheel.len(), 2);

    let mut a_count: u32 = 0;
    for _ in 0..100_000 {
        match wheel.peek() {
            Some((5, &'a')) => a_count += 1,
            Some((1, &'b')) => {}
            other => panic!("unexpected selection {:?}", other),
        }
    }
    // 5/6 of 100,000 is about 83,333; the standard deviation is about 118.
    assert!(a_count > 82_000 && a_count < 84_700, "'a' seen {} times", a_count);
}

#[test]
fn each_draw_selects_by_span() {
    let mut wheel = RandomWheel::new();
    wheel.push(5, 'a');
    wheel.push(1, 'b');
    for d in 0..5u64 {
        assert_eq!(wheel.select_index(d), Some(0));
    }
    assert_eq!(wheel.select_index(5), Some(1));
    assert_eq!(wheel.select_index(6), None);
    assert_eq!(wheel.select_index(u64::MAX), None);
}

#[test]
fn draws_selecting_an_entry_match_its_weight() {
    let weights: Vec<u64> = vec![2, 7, 1, 4, 3];
    let mut wheel = RandomWheel::new();
    for (i, w) in weights.iter().enumerate() {
        wheel.push(*w, i);
    }
    let mut counts = vec![0u64; weights.len()];
    for d in 0..wheel.proba_sum() {
        let i = wheel.select_index(d).expect("a draw below the sum selects an entry");
        counts[i] += 1;
    }
    assert_eq!(counts, weights);
    assert_eq!(wheel.select_index(17), None);
}

#[test]
fn empty_wheel_selects_nothing() {
    let mut wheel: RandomWheel<u8> = RandomWheel::new();
    assert!(wheel.is_empty());
    assert_eq!(wheel.proba_sum(), 0);
    assert_eq!(wheel.select_index(0), None);
    assert_eq!(wheel.peek(), None);
    assert!(wheel.peek_mut().is_none());
    assert_eq!(wheel.pop(), None);
    assert_eq!(wheel.next(), None);
}

#[test]
fn clear_resets_the_sum() {
    let mut wheel = RandomWheel::new();
    wheel.push(4, 'a');
    wheel.push(9, 'b');
    assert_eq!(wheel.proba_sum(), 13);
    wheel.clear();
    assert_eq!(wheel.len(), 0);
    assert_eq!(wheel.proba_sum(), 0);
    assert_eq!(wheel.peek(), None);
    assert!(wheel.peek_mut().is_none());
    assert_eq!(wheel.pop(), None);
}

#[test]
fn from_vec_gives_each_item_weight_one() {
    let wheel = RandomWheel::from_vec(vec!["x", "y", "z"]);
    assert_eq!(wheel.len(), 3);
    assert_eq!(wheel.proba_sum(), 3);
    let entries: Vec<(u64, &str)> = wheel.iter().map(|e| (e.0, e.1)).collect();
    assert_eq!(entries, vec![(1, "x"), (1, "y"), (1, "z")]);
}

#[test]
fn iter_keeps_push_order() {
    let mut wheel = RandomWheel::new();
    wheel.push(1, 'r');
    wheel.push(2, 'c');
    wheel.push(3, 'a');
    let mut iter = wheel.iter();
    assert_eq!(iter.next(), Some(&(1, 'r')));
    assert_eq!(iter.next(), Some(&(2, 'c')));
    assert_eq!(iter.next(), Some(&(3, 'a')));
    assert_eq!(iter.next(), None);
}

#[test]
fn iter_mut_then_recompute() {
    let mut wheel = RandomWheel::new();
    wheel.push(1, 'r');
    wheel.push(1, 'c');
    wheel.push(1, 'a');
    for e in wheel.iter_mut() {
        e.0 = 4;
        e.1 = 'm';
    }
    assert_eq!(wheel.proba_sum(), 3);
    wheel.compute_proba_sum();
    assert_eq!(wheel.proba_sum(), 12);
    assert_eq!(wheel.peek(), Some((4, &'m')));
}

#[test]
fn peek_mut_changes_the_item_only() {
    let mut wheel = RandomWheel::new();
    wheel.push(1, 'r');
    match wheel.peek_mut() {
        Some((_, val)) => *val = 'b',
        None => {}
    }
    assert_eq!(wheel.peek(), Some((1, &'b')));
    assert_eq!(wheel.proba_sum(), 1);
}

#[test]
fn pop_takes_weight_off_the_sum() {
    let mut wheel = RandomWheel::new();
    wheel.push(2, 'a');
    wheel.push(8, 'b');
    let (w, _) = wheel.pop().expect("a non-empty wheel yields an entry");
    assert_eq!(wheel.proba_sum(), 10 - w);
    assert_eq!(wheel.len(), 1);
}

#[test]
fn capacity_and_reserve() {
    let mut wheel: RandomWheel<u8> = RandomWheel::with_capacity(20);
    assert_eq!(wheel.len(), 0);
    assert_eq!(wheel.proba_sum(), 0);
    assert!(wheel.capacity() >= 20);
    wheel.push(3, 1);
    wheel.reserve(50);
    assert!(wheel.capacity() >= 51);
    assert_eq!(wheel.len(), 1);
    assert_eq!(wheel.proba_sum(), 3);
}

#[test]
fn clone_keeps_entries_and_sum() {
    let mut wheel = RandomWheel::new();
    wheel.push(2, String::from("a"));
    wheel.push(5, String::from("b"));
    let copy = wheel.clone();
    assert_eq!(copy.proba_sum(), 7);
    let entries: Vec<(u64, String)> = copy.iter().cloned().collect();
    assert_eq!(entries, vec![(2, String::from("a")), (5, String::from("b"))]);
    wheel.clear();
    assert_eq!(copy.len(), 2);
}
