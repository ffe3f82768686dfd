use dispatch_core::fan_out::{
    copy_chunk, dispatch_fan_out, fan_in, fan_out, reversed, split_chunks,
};
use dispatch_core::squares::{checked_sum, parallel_sum_of_squares, sum_of_squares};

#[test]
fn sum_of_squares_of_one_to_a_hundred_in_chunks_of_25() {
    let items: Vec<i64> = (1..=100).collect();
    let total = dispatch_fan_out(
        &items,
        25,
        |chunk: Vec<i64>| chunk.iter().map(|x| x * x).sum::<i64>(),
        |a: i64, b: i64| a + b,
        0i64,
    );
    assert_eq!(total, 338350);
    let single: i64 = items.iter().map(|x| x * x).sum();
    assert_eq!(total, single);
}

#[test]
fn parallel_sum_of_squares_matches_the_sequential_one() {
    let data: Vec<i32> = (1..=100).collect();
    for chunk_size in [1usize, 7, 25, 100, 1000] {
        assert_eq!(parallel_sum_of_squares(&data, chunk_size), Some(338350));
    }
    assert_eq!(sum_of_squares(data), Some(338350));
}

#[test]
fn sum_of_squares_reports_overflow() {
    let big = vec![i32::MIN, i32::MIN, i32::MIN];
    assert_eq!(sum_of_squares(big.clone()), None);
    assert_eq!(parallel_sum_of_squares(&big, 1), None);
    let fits = vec![i32::MIN];
    assert_eq!(sum_of_squares(fits), Some(1i64 << 62));
    assert_eq!(sum_of_squares(Vec::new()), Some(0));
}

#[test]
fn checked_sum_adds_or_gives_up() {
    assert_eq!(checked_sum(Some(2), Some(3)), Some(5));
    assert_eq!(checked_sum(Some(i64::MAX), Some(1)), None);
    assert_eq!(checked_sum(None, Some(1)), None);
    assert_eq!(checked_sum(Some(1), None), None);
}

#[test]
fn chunks_are_consecutive_and_the_last_may_be_short() {
    let items: Vec<u8> = (0..10).collect();
    let chunks = fan_out(&items, 4, &|chunk: Vec<u8>| chunk);
    assert_eq!(chunks, vec![vec![0, 1, 2, 3], vec![4, 5, 6, 7], vec![8, 9]]);
    let none = fan_out(&Vec::<u8>::new(), 4, &|chunk: Vec<u8>| chunk);
    assert!(none.is_empty());
    let exact = fan_out(&items, 5, &|chunk: Vec<u8>| chunk.len());
    assert_eq!(exact, vec![5, 5]);
}

#[test]
fn fan_in_folds_from_the_left() {
    let folded = fan_in(vec![1i64, 2, 3], &|a: i64, b: i64| a * 10 + b, 0);
    assert_eq!(folded, 123);
    let empty = fan_in(Vec::<i64>::new(), &|a: i64, b: i64| a + b, 7);
    assert_eq!(empty, 7);
}

#[test]
fn copy_chunk_copies_the_range() {
    let items = vec![10, 20, 30, 40];
    assert_eq!(copy_chunk(&items, 1, 3), vec![20, 30]);
    assert_eq!(copy_chunk(&items, 2, 2), Vec::<i32>::new());
}

#[test]
fn an_associative_commutative_reduce_ignores_the_order() {
    let partials = vec![7i64, -3, 12, 0, 5];
    let mut shuffled = partials.clone();
    shuffled.reverse();
    shuffled.swap(1, 3);
    let add = |a: i64, b: i64| a + b;
    assert_eq!(fan_in(partials.clone(), &add, 0), 21);
    assert_eq!(fan_in(shuffled.clone(), &add, 0), 21);
    let max = |a: i64, b: i64| a.max(b);
    assert_eq!(fan_in(partials, &max, i64::MIN), 12);
    assert_eq!(fan_in(shuffled, &max, i64::MIN), 12);
}

#[test]
fn split_chunks_gives_consecutive_chunks() {
    let items: Vec<u32> = (1..=10).collect();
    assert_eq!(
        split_chunks(&items, 3),
        vec![vec![1, 2, 3], vec![4, 5, 6], vec![7, 8, 9], vec![10]]
    );
    assert_eq!(split_chunks(&items, 5), vec![vec![1, 2, 3, 4, 5], vec![6, 7, 8, 9, 10]]);
    assert_eq!(split_chunks(&items, 10), vec![items.clone()]);
    assert_eq!(split_chunks(&items, 11), vec![items.clone()]);
    assert_eq!(split_chunks(&items, 1).len(), 10);
    assert!(split_chunks(&Vec::<u32>::new(), 4).is_empty());
    for chunk_size in 1..=12usize {
        let chunks = split_chunks(&items, chunk_size);
        assert_eq!(chunks.len(), (items.len() + chunk_size - 1) / chunk_size);
        assert_eq!(chunks.concat(), items);
        for (i, chunk) in chunks.iter().enumerate() {
            assert!(!chunk.is_empty());
            assert!(chunk.len() == chunk_size || i == chunks.len() - 1);
        }
    }
}

#[test]
fn reversed_turns_the_order_round() {
    assert_eq!(reversed(vec![1, 2, 3]), vec![3, 2, 1]);
    assert_eq!(reversed(Vec::<i32>::new()), Vec::<i32>::new());
    assert_eq!(reversed(vec![String::from("a"), String::from("b")]), vec!["b", "a"]);
}
