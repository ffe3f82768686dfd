//! Sums of squares, computed at once and by fan-out over chunks.

use vstd::prelude::*;
use crate::fan_out::{chunks_of, computed_from, dispatch_fan_out, fanned_out, folds_to};

verus! {

/// The sum of the squares of the items.
pub open spec fn square_sum(items: Seq<i32>) -> int
    decreases items.len(),
{
    if items.len() == 0 {
        0
    } else {
        square_sum(items.drop_last()) + items.last() * items.last()
    }
}

/// The sum of the squares of all items of all chunks.
pub open spec fn total_squares(chunks: Seq<Seq<i32>>) -> int
    decreases chunks.len(),
{
    if chunks.len() == 0 {
        0
    } else {
        total_squares(chunks.drop_last()) + square_sum(chunks.last())
    }
}

/// `n` as an `i64`, where it fits.
pub open spec fn checked(n: int) -> Option<i64> {
    if i64::MIN <= n <= i64::MAX {
        Some(n as i64)
    } else {
        None
    }
}

/// The sum of two partial results, where both are there and it fits.
pub open spec fn checked_sum_of(a: Option<i64>, b: Option<i64>) -> Option<i64> {
    match (a, b) {
        (Some(x), Some(y)) => checked(x + y),
        _ => None,
    }
}

/// The sum of squares of a single item is its square.
pub proof fn lemma_square_sum_single(item: i32)
    ensures
        square_sum(seq![item]) == item * item,
{
    assert(seq![item].drop_last() =~= Seq::<i32>::empty());
    assert(seq![item].last() == item);
    assert(square_sum(seq![item].drop_last()) == 0);
}

/// A sum of squares is not negative.
pub proof fn lemma_square_sum_nonnegative(items: Seq<i32>)
    ensures
        square_sum(items) >= 0,
    decreases items.len(),
{
    if items.len() > 0 {
        lemma_square_sum_nonnegative(items.drop_last());
        let x = items.last() as int;
        assert(x * x >= 0) by (nonlinear_arith);
    }
}

/// The sum of squares of a sequence is that of a front part plus that of the rest.
pub proof fn lemma_square_sum_concat(front: Seq<i32>, rest: Seq<i32>)
    ensures
        square_sum(front + rest) == square_sum(front) + square_sum(rest),
    decreases rest.len(),
{
    if rest.len() == 0 {
        assert(front + rest =~= front);
    } else {
        lemma_square_sum_concat(front, rest.drop_last());
        assert((front + rest).drop_last() =~= front + rest.drop_last());
        assert((front + rest).last() == rest.last());
    }
}

/// The total over the chunks of a sequence is not negative.
pub proof fn lemma_total_squares_nonnegative(chunks: Seq<Seq<i32>>)
    ensures
        total_squares(chunks) >= 0,
    decreases chunks.len(),
{
    if chunks.len() > 0 {
        lemma_total_squares_nonnegative(chunks.drop_last());
        lemma_square_sum_nonnegative(chunks.last());
    }
}

/// The total over a first chunk and further chunks is the sum of both.
proof fn lemma_total_squares_first(first: Seq<i32>, rest: Seq<Seq<i32>>)
    ensures
        total_squares(seq![first] + rest) == square_sum(first) + total_squares(rest),
    decreases rest.len(),
{
    let all = seq![first] + rest;
    if rest.len() == 0 {
        assert(all.drop_last() =~= Seq::<Seq<i32>>::empty());
        assert(all.last() == first);
        assert(total_squares(all.drop_last()) == 0);
    } else {
        lemma_total_squares_first(first, rest.drop_last());
        assert(all.drop_last() =~= seq![first] + rest.drop_last());
        assert(all.last() == rest.last());
    }
}

/// Splitting into chunks loses and adds nothing: the total over the chunks
/// of a sequence is the sum of squares of the sequence, whatever the chunk
/// size.
pub proof fn lemma_chunks_keep_the_sum(items: Seq<i32>, chunk_size: nat)
    requires
        chunk_size > 0,
    ensures
        total_squares(chunks_of(items, chunk_size)) == square_sum(items),
    decreases items.len(),
{
    if items.len() == 0 {
    } else if items.len() <= chunk_size {
        lemma_total_squares_first(items, Seq::empty());
        assert(seq![items] + Seq::<Seq<i32>>::empty() =~= seq![items]);
    } else {
        let first = items.take(chunk_size as int);
        let rest = items.skip(chunk_size as int);
        lemma_chunks_keep_the_sum(rest, chunk_size);
        lemma_total_squares_first(first, chunks_of(rest, chunk_size));
        lemma_square_sum_concat(first, rest);
        assert(first + rest =~= items);
    }
}

/// Folding the chunks' partial sums with a checked addition gives the
/// checked total over the chunks.
proof fn lemma_fold_of_partial_sums<G: Fn(Option<i64>, Option<i64>) -> Option<i64>>(
    reduce: G,
    chunks: Seq<Seq<i32>>,
    partials: Seq<Option<i64>>,
    total: Option<i64>,
)
    requires
        forall|a: Option<i64>, b: Option<i64>, out: Option<i64>|
            call_ensures(reduce, (a, b), out) ==> out == checked_sum_of(a, b),
        partials.len() == chunks.len(),
        forall|i: int| 0 <= i < chunks.len() ==> partials[i] == checked(square_sum(chunks[i])),
        folds_to(reduce, Some(0i64), partials, total),
    ensures
        total == checked(total_squares(chunks)),
    decreases chunks.len(),
{
    if chunks.len() > 0 {
        let before = choose|before: Option<i64>|
            #![trigger call_ensures(reduce, (before, partials.last()), total)]
            folds_to(reduce, Some(0i64), partials.drop_last(), before) && call_ensures(
                reduce,
                (before, partials.last()),
                total,
            );
        lemma_fold_of_partial_sums(reduce, chunks.drop_last(), partials.drop_last(), before);
        lemma_total_squares_nonnegative(chunks.drop_last());
        lemma_square_sum_nonnegative(chunks.last());
        assert(partials.last() == checked(square_sum(chunks.last())));
    }
}

/// The sum of the squares of the items of one chunk, or `None` where it
/// does not fit in an `i64`.
pub fn sum_of_squares(chunk: Vec<i32>) -> (sum: Option<i64>)
    ensures
        sum == checked(square_sum(chunk@)),
{
    let mut sum: i64 = 0;
    let mut i: usize = 0;
    while i < chunk.len()
        invariant
            i <= chunk@.len(),
            sum == square_sum(chunk@.take(i as int)),
        decreases chunk@.len() - i,
    {
        let x: i64 = chunk[i] as i64;
        assert(0 <= x * x <= 0x4000_0000_0000_0000) by (nonlinear_arith)
            requires
                -0x8000_0000 <= x <= 0x7fff_ffff,
        ;
        let square: i64 = x * x;
        proof {
            let next = chunk@.take(i + 1);
            assert(next.drop_last() =~= chunk@.take(i as int));
            assert(next.last() == chunk@[i as int]);
            assert(square_sum(next) == sum + square);
        }
        match sum.checked_add(square) {
            Some(next) => {
                sum = next;
            },
            None => {
                proof {
                    let front = chunk@.take(i + 1);
                    let rest = chunk@.skip(i + 1);
                    assert(front + rest =~= chunk@);
                    lemma_square_sum_concat(front, rest);
                    lemma_square_sum_nonnegative(rest);
                }
                return None;
            },
        }
        i = i + 1;
    }
    proof {
        assert(chunk@.take(chunk@.len() as int) =~= chunk@);
    }
    Some(sum)
}

/// The sum of two partial results; `None` where one of them is missing or
/// the sum does not fit in an `i64`.
pub fn checked_sum(a: Option<i64>, b: Option<i64>) -> (sum: Option<i64>)
    ensures
        sum == checked_sum_of(a, b),
{
    match (a, b) {
        (Some(x), Some(y)) => x.checked_add(y),
        _ => None,
    }
}

/// The sum of the squares of `data`, computed by fan-out over chunks of at
/// most `chunk_size` items and fan-in by checked addition. The result is
/// that of the computation in one piece, for every chunk size.
pub fn parallel_sum_of_squares(data: &Vec<i32>, chunk_size: usize) -> (sum: Option<i64>)
    requires
        chunk_size > 0,
    ensures
        sum == checked(square_sum(data@)),
{
    let sum = dispatch_fan_out(data, chunk_size, sum_of_squares, checked_sum, Some(0i64));
    proof {
        let chunks = chunks_of(data@, chunk_size as nat);
        let partials = choose|partials: Seq<Option<i64>>|
            fanned_out(sum_of_squares, data@, chunk_size as nat, partials) && folds_to(
                checked_sum,
                Some(0i64),
                partials,
                sum,
            );
        assert forall|i: int| 0 <= i < chunks.len() implies partials[i] == checked(
            square_sum(chunks[i]),
        ) by {
            assert(computed_from(sum_of_squares, chunks[i], partials[i]));
        }
        lemma_fold_of_partial_sums(checked_sum, chunks, partials, sum);
        lemma_chunks_keep_the_sum(data@, chunk_size as nat);
    }
    sum
}

} // verus!
