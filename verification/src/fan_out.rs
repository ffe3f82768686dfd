//! Queue-free dispatch: one task per chunk of a bounded data set, and a
//! reduction of the partial results.

use vstd::prelude::*;

verus! {

/// The consecutive chunks of at most `chunk_size` items into which `items`
/// is split. Every chunk but the last holds exactly `chunk_size` items.
pub open spec fn chunks_of<T>(items: Seq<T>, chunk_size: nat) -> Seq<Seq<T>>
    decreases items.len(),
{
    if items.len() == 0 || chunk_size == 0 {
        Seq::empty()
    } else if items.len() <= chunk_size {
        seq![items]
    } else {
        seq![items.take(chunk_size as int)] + chunks_of(items.skip(chunk_size as int), chunk_size)
    }
}

/// Where chunk `i` ends in a sequence of `len` items.
pub open spec fn chunk_end(len: nat, chunk_size: nat, i: int) -> int {
    if (i + 1) * chunk_size <= len {
        (i + 1) * chunk_size
    } else {
        len as int
    }
}

/// Whether chunk `i` of `items` is where it belongs: it holds the items
/// from position `i * chunk_size` up to the chunk's end, it is not empty, and
/// it is full unless it is the last chunk.
pub open spec fn chunk_in_place<T>(items: Seq<T>, chunk_size: nat, i: int) -> bool {
    let chunks = chunks_of(items, chunk_size);
    &&& 0 <= i * chunk_size < chunk_end(items.len(), chunk_size, i) <= items.len()
    &&& chunks[i] == items.subrange(i * chunk_size, chunk_end(items.len(), chunk_size, i))
    &&& 0 < chunks[i].len() <= chunk_size
    &&& i < chunks.len() - 1 ==> chunks[i].len() == chunk_size
}

/// What the chunks of a sequence are: there are as many as `chunk_size`
/// goes into the length, rounded up; chunk `i` holds the items from
/// position `i * chunk_size` on, up to `chunk_size` of them; so no chunk is
/// empty, every chunk but the last is full, and the chunks one after the
/// other give the sequence back.
pub proof fn lemma_chunks_of<T>(items: Seq<T>, chunk_size: nat)
    requires
        chunk_size > 0,
    ensures
        chunks_of(items, chunk_size).len() == (items.len() + chunk_size - 1) / (chunk_size as int),
        forall|i: int|
            0 <= i < chunks_of(items, chunk_size).len() ==> #[trigger] chunk_in_place(
                items,
                chunk_size,
                i,
            ),
        chunks_of(items, chunk_size).flatten() == items,
    decreases items.len(),
{
    let size = chunk_size as int;
    let len = items.len() as int;
    let chunks = chunks_of(items, chunk_size);
    if len == 0 {
        assert((len + size - 1) / size == 0) by (nonlinear_arith)
            requires
                len == 0,
                size > 0,
        ;
        assert(chunks.flatten() =~= items);
    } else if len <= size {
        assert((len + size - 1) / size == 1) by (nonlinear_arith)
            requires
                0 < len <= size,
        ;
        assert(chunks =~= seq![items]);
        assert(0 * size == 0);
        assert(1 * size == size);
        assert(chunk_end(items.len(), chunk_size, 0) == len);
        assert(items.subrange(0, len) =~= items);
        assert forall|i: int| 0 <= i < chunks.len() implies #[trigger] chunk_in_place(items, chunk_size, i) by {
            assert(i == 0);
        }
        assert(chunks.drop_first() =~= Seq::<Seq<T>>::empty());
        assert(chunks.drop_first().flatten() =~= Seq::<T>::empty());
        assert(chunks.flatten() =~= items);
    } else {
        let first = items.take(size);
        let rest = items.skip(size);
        let others = chunks_of(rest, chunk_size);
        lemma_chunks_of(rest, chunk_size);
        assert(chunks =~= seq![first] + others);
        assert((len + size - 1) / size == 1 + (len - size + size - 1) / size) by (nonlinear_arith)
            requires
                size > 0,
                len > size,
        ;
        assert forall|i: int| 0 <= i < chunks.len() implies #[trigger] chunk_in_place(items, chunk_size, i) by {
            if i == 0 {
                assert(0 * size == 0);
                assert(1 * size == size);
                assert(first =~= items.subrange(0, size));
            } else {
                let j = i - 1;
                assert(chunk_in_place(rest, chunk_size, j));
                assert(chunks[i] == others[j]);
                assert(j * size + size == i * size) by (nonlinear_arith)
                    requires
                        j == i - 1,
                ;
                assert((j + 1) * size + size == (i + 1) * size) by (nonlinear_arith)
                    requires
                        j == i - 1,
                ;
                assert((j + 1) * size == i * size) by (nonlinear_arith)
                    requires
                        j == i - 1,
                ;
                assert(chunk_end(rest.len(), chunk_size, j) + size == chunk_end(
                    items.len(),
                    chunk_size,
                    i,
                ));
                assert(rest.subrange(j * size, chunk_end(rest.len(), chunk_size, j))
                    =~= items.subrange(i * size, chunk_end(items.len(), chunk_size, i)));
            }
        }
        assert(chunks.first() == first);
        assert(chunks.drop_first() =~= others);
        assert(chunks.flatten() =~= first + others.flatten());
        assert(first + rest =~= items);
    }
}

/// Whether `partial` is what `compute` makes of a chunk that holds `chunk`.
pub open spec fn computed_from<T, R, C: Fn(Vec<T>) -> R>(
    compute: C,
    chunk: Seq<T>,
    partial: R,
) -> bool {
    exists|task: Vec<T>| task@ == chunk && call_ensures(compute, (task,), partial)
}

/// Whether folding `partials` from the left with `reduce`, starting from
/// `identity`, can give `total`.
pub open spec fn folds_to<R, G: Fn(R, R) -> R>(
    reduce: G,
    identity: R,
    partials: Seq<R>,
    total: R,
) -> bool
    decreases partials.len(),
{
    if partials.len() == 0 {
        total == identity
    } else {
        exists|before: R|
            #![trigger call_ensures(reduce, (before, partials.last()), total)]
            folds_to(reduce, identity, partials.drop_last(), before) && call_ensures(
                reduce,
                (before, partials.last()),
                total,
            )
    }
}

/// The fold of `partials` from the left with the function `combine`,
/// starting from `identity`.
pub open spec fn fold_with<R>(combine: spec_fn(R, R) -> R, identity: R, partials: Seq<R>) -> R
    decreases partials.len(),
{
    if partials.len() == 0 {
        identity
    } else {
        combine(fold_with(combine, identity, partials.drop_last()), partials.last())
    }
}

/// Whether `combine` is associative and commutative.
pub open spec fn order_free<R>(combine: spec_fn(R, R) -> R) -> bool {
    &&& forall|a: R, b: R| #[trigger] combine(a, b) == combine(b, a)
    &&& forall|a: R, b: R, c: R| #[trigger] combine(combine(a, b), c) == combine(a, combine(b, c))
}

/// Whether `partials` are the partial results of the chunks of `items`, one
/// per chunk and in the chunks' order.
pub open spec fn fanned_out<T, R, C: Fn(Vec<T>) -> R>(
    compute: C,
    items: Seq<T>,
    chunk_size: nat,
    partials: Seq<R>,
) -> bool {
    &&& partials.len() == chunks_of(items, chunk_size).len()
    &&& forall|i: int|
        0 <= i < partials.len() ==> computed_from(
            compute,
            chunks_of(items, chunk_size)[i],
            #[trigger] partials[i],
        )
}

/// Copies `items[start..end]` into a vector of its own, which a task then owns.
pub fn copy_chunk<T: Copy>(items: &Vec<T>, start: usize, end: usize) -> (chunk: Vec<T>)
    requires
        start <= end <= items@.len(),
    ensures
        chunk@ == items@.subrange(start as int, end as int),
{
    let mut chunk: Vec<T> = Vec::new();
    let mut i: usize = start;
    while i < end
        invariant
            start <= i <= end <= items@.len(),
            chunk@ == items@.subrange(start as int, i as int),
        decreases end - i,
    {
        chunk.push(items[i]);
        i = i + 1;
        assert(chunk@ =~= items@.subrange(start as int, i as int));
    }
    chunk
}

/// Splits `items` into consecutive chunks of at most `chunk_size`, each a
/// vector of its own.
pub fn split_chunks<T: Copy>(items: &Vec<T>, chunk_size: usize) -> (chunks: Vec<Vec<T>>)
    requires
        chunk_size > 0,
    ensures
        chunks@.len() == chunks_of(items@, chunk_size as nat).len(),
        forall|i: int|
            0 <= i < chunks@.len() ==> (#[trigger] chunks@[i])@ == chunks_of(
                items@,
                chunk_size as nat,
            )[i],
{
    let mut chunks: Vec<Vec<T>> = Vec::new();
    let len = items.len();
    let mut start: usize = 0;
    proof {
        assert(items@.skip(0) =~= items@);
    }
    while start < len
        invariant
            chunk_size > 0,
            len == items@.len(),
            start <= len,
            chunks_of(items@, chunk_size as nat).len() == chunks@.len() + chunks_of(
                items@.skip(start as int),
                chunk_size as nat,
            ).len(),
            forall|i: int|
                chunks@.len() <= i < chunks_of(items@, chunk_size as nat).len() ==> chunks_of(
                    items@,
                    chunk_size as nat,
                )[i] == chunks_of(items@.skip(start as int), chunk_size as nat)[i - chunks@.len()],
            forall|i: int|
                0 <= i < chunks@.len() ==> (#[trigger] chunks@[i])@ == chunks_of(
                    items@,
                    chunk_size as nat,
                )[i],
        decreases len - start,
    {
        let end = if len - start <= chunk_size {
            len
        } else {
            start + chunk_size
        };
        let chunk = copy_chunk(items, start, end);
        proof {
            let rest = items@.skip(start as int);
            let all = chunks_of(items@, chunk_size as nat);
            assert(rest.len() == len - start);
            if len - start <= chunk_size {
                assert(chunks_of(rest, chunk_size as nat) =~= seq![rest]);
                assert(chunk@ =~= rest);
                assert(items@.skip(end as int).len() == 0);
                assert(chunks_of(items@.skip(end as int), chunk_size as nat).len() == 0);
            } else {
                assert(chunk@ =~= rest.take(chunk_size as int));
                assert(rest.skip(chunk_size as int) =~= items@.skip(end as int));
                assert(chunks_of(rest, chunk_size as nat) =~= seq![rest.take(chunk_size as int)]
                    + chunks_of(items@.skip(end as int), chunk_size as nat));
            }
            assert(all[chunks@.len() as int] == chunks_of(rest, chunk_size as nat)[0]);
            assert(all[chunks@.len() as int] == chunk@);
            assert forall|i: int| chunks@.len() + 1 <= i < all.len() implies all[i] == chunks_of(
                items@.skip(end as int),
                chunk_size as nat,
            )[i - chunks@.len() - 1] by {
                assert(all[i] == chunks_of(rest, chunk_size as nat)[i - chunks@.len()]);
            }
        }
        chunks.push(chunk);
        start = end;
    }
    proof {
        assert(items@.skip(start as int).len() == 0);
    }
    chunks
}

/// The items in the opposite order, so that the first can be taken out first.
pub fn reversed<T>(items: Vec<T>) -> (turned: Vec<T>)
    ensures
        turned@.len() == items@.len(),
        forall|j: int| 0 <= j < turned@.len() ==> turned@[j] == items@[items@.len() - 1 - j],
{
    let ghost all = items@;
    let mut rest = items;
    let mut turned: Vec<T> = Vec::new();
    while rest.len() > 0
        invariant
            rest@.len() + turned@.len() == all.len(),
            forall|i: int| 0 <= i < rest@.len() ==> rest@[i] == all[i],
            forall|j: int| 0 <= j < turned@.len() ==> turned@[j] == all[all.len() - 1 - j],
        decreases rest@.len(),
    {
        match rest.pop() {
            Some(item) => {
                turned.push(item);
            },
            None => {},
        }
    }
    turned
}

/// Fan-out: splits `items` into consecutive chunks of at most `chunk_size`
/// and runs `compute` once on each. The partial results come back in the
/// order of the chunks.
pub fn fan_out<T: Copy, R, C: Fn(Vec<T>) -> R>(items: &Vec<T>, chunk_size: usize, compute: &C) -> (partials:
    Vec<R>)
    requires
        chunk_size > 0,
        forall|task: Vec<T>| call_requires(*compute, (task,)),
    ensures
        fanned_out(*compute, items@, chunk_size as nat, partials@),
{
    let ghost all = chunks_of(items@, chunk_size as nat);
    let mut tasks = reversed(split_chunks(items, chunk_size));
    let mut partials: Vec<R> = Vec::new();
    while tasks.len() > 0
        invariant
            forall|task: Vec<T>| call_requires(*compute, (task,)),
            all == chunks_of(items@, chunk_size as nat),
            partials@.len() + tasks@.len() == all.len(),
            forall|j: int| 0 <= j < tasks@.len() ==> (#[trigger] tasks@[j])@ == all[all.len() - 1 - j],
            forall|i: int|
                0 <= i < partials@.len() ==> computed_from(*compute, all[i], #[trigger] partials@[i]),
        decreases tasks@.len(),
    {
        let ghost next = partials@.len() as int;
        let ghost waiting = tasks@;
        match tasks.pop() {
            Some(task) => {
                proof {
                    assert(task == waiting[waiting.len() - 1]);
                    assert(task@ == all[next]);
                    assert forall|j: int| 0 <= j < tasks@.len() implies (#[trigger] tasks@[j])@
                        == all[all.len() - 1 - j] by {
                        assert(tasks@[j] == waiting[j]);
                    }
                }
                let partial = compute(task);
                partials.push(partial);
                proof {
                    assert(computed_from(*compute, all[next], partial));
                }
            },
            None => {},
        }
    }
    partials
}

/// A fold that has reached `before` reaches `total` with one more partial result.
pub proof fn lemma_fold_one_more<R, G: Fn(R, R) -> R>(
    reduce: G,
    identity: R,
    partials: Seq<R>,
    before: R,
    partial: R,
    total: R,
)
    requires
        folds_to(reduce, identity, partials, before),
        call_ensures(reduce, (before, partial), total),
    ensures
        folds_to(reduce, identity, partials.push(partial), total),
{
    let next = partials.push(partial);
    assert(next.drop_last() =~= partials);
    assert(next.last() == partial);
    assert(folds_to(reduce, identity, next.drop_last(), before));
    assert(call_ensures(reduce, (before, next.last()), total));
}

/// Where `reduce` computes the function `combine`, the fold can give one
/// total only: the fold with `combine`.
pub proof fn lemma_fold_is_determined<R, G: Fn(R, R) -> R>(
    reduce: G,
    combine: spec_fn(R, R) -> R,
    identity: R,
    partials: Seq<R>,
    total: R,
)
    requires
        forall|a: R, b: R, out: R| call_ensures(reduce, (a, b), out) ==> out == combine(a, b),
        folds_to(reduce, identity, partials, total),
    ensures
        total == fold_with(combine, identity, partials),
    decreases partials.len(),
{
    if partials.len() > 0 {
        let before = choose|before: R|
            #![trigger call_ensures(reduce, (before, partials.last()), total)]
            folds_to(reduce, identity, partials.drop_last(), before) && call_ensures(
                reduce,
                (before, partials.last()),
                total,
            );
        lemma_fold_is_determined(reduce, combine, identity, partials.drop_last(), before);
    }
}

/// The aggregate is determined: where `compute` computes `per_chunk` of a
/// chunk's items and `reduce` computes `combine`, the one total that a
/// dispatch can give is the fold with `combine` over `per_chunk` of each
/// chunk, in the chunks' order.
pub proof fn lemma_dispatch_is_determined<T, R, C: Fn(Vec<T>) -> R, G: Fn(R, R) -> R>(
    compute: C,
    reduce: G,
    per_chunk: spec_fn(Seq<T>) -> R,
    combine: spec_fn(R, R) -> R,
    items: Seq<T>,
    chunk_size: nat,
    identity: R,
    total: R,
)
    requires
        forall|task: Vec<T>, out: R| call_ensures(compute, (task,), out) ==> out == per_chunk(task@),
        forall|a: R, b: R, out: R| call_ensures(reduce, (a, b), out) ==> out == combine(a, b),
        exists|partials: Seq<R>|
            fanned_out(compute, items, chunk_size, partials) && folds_to(
                reduce,
                identity,
                partials,
                total,
            ),
    ensures
        total == fold_with(
            combine,
            identity,
            chunks_of(items, chunk_size).map_values(per_chunk),
        ),
{
    let partials = choose|partials: Seq<R>|
        fanned_out(compute, items, chunk_size, partials) && folds_to(
            reduce,
            identity,
            partials,
            total,
        );
    let chunks = chunks_of(items, chunk_size);
    assert forall|i: int| 0 <= i < partials.len() implies partials[i] == per_chunk(chunks[i]) by {
        assert(computed_from(compute, chunks[i], partials[i]));
    }
    assert(partials =~= chunks.map_values(per_chunk));
    lemma_fold_is_determined(reduce, combine, identity, partials, total);
}

/// With an associative and commutative `combine`, a partial result may be
/// folded in last instead of in its place.
pub proof fn lemma_fold_any_last<R>(
    combine: spec_fn(R, R) -> R,
    identity: R,
    partials: Seq<R>,
    i: int,
)
    requires
        order_free(combine),
        0 <= i < partials.len(),
    ensures
        fold_with(combine, identity, partials) == combine(
            fold_with(combine, identity, partials.remove(i)),
            partials[i],
        ),
    decreases partials.len(),
{
    let rest = partials.drop_last();
    if i == partials.len() - 1 {
        assert(partials.remove(i) =~= rest);
    } else {
        lemma_fold_any_last(combine, identity, rest, i);
        let others = partials.remove(i);
        assert(others.drop_last() =~= rest.remove(i));
        assert(others.last() == partials.last());
        let a = fold_with(combine, identity, rest.remove(i));
        let b = partials[i];
        let c = partials.last();
        assert(rest[i] == b);
        assert(fold_with(combine, identity, partials) == combine(combine(a, b), c));
        assert(fold_with(combine, identity, others) == combine(a, c));
        assert(combine(combine(a, b), c) == combine(a, combine(b, c)));
        assert(combine(b, c) == combine(c, b));
        assert(combine(combine(a, c), b) == combine(a, combine(c, b)));
    }
}

/// The aggregate does not depend on the order in which the tasks complete:
/// with an associative and commutative `combine`, two sequences that hold
/// the same partial results, each as often as the other, fold to one total.
pub proof fn lemma_fold_order_is_irrelevant<R>(
    combine: spec_fn(R, R) -> R,
    identity: R,
    first: Seq<R>,
    second: Seq<R>,
)
    requires
        order_free(combine),
        first.to_multiset() == second.to_multiset(),
    ensures
        fold_with(combine, identity, first) == fold_with(combine, identity, second),
    decreases first.len(),
{
    broadcast use vstd::seq_lib::group_to_multiset_ensures;

    assert(first.len() == first.to_multiset().len());
    assert(second.len() == second.to_multiset().len());
    if first.len() > 0 {
        let x = first.last();
        assert(first.contains(x));
        assert(second.to_multiset().count(x) > 0);
        assert(second.contains(x));
        let j = choose|j: int| 0 <= j < second.len() && second[j] == x;
        let rest = second.remove(j);
        assert(first.drop_last() =~= first.remove(first.len() - 1));
        assert(first.drop_last().to_multiset() =~= rest.to_multiset());
        lemma_fold_order_is_irrelevant(combine, identity, first.drop_last(), rest);
        lemma_fold_any_last(combine, identity, second, j);
    }
}

/// Fan-in: folds the partial results from the left with `reduce`, starting
/// from `identity`.
pub fn fan_in<R, G: Fn(R, R) -> R>(partials: Vec<R>, reduce: &G, identity: R) -> (total: R)
    requires
        forall|a: R, b: R| call_requires(*reduce, (a, b)),
    ensures
        folds_to(*reduce, identity, partials@, total),
{
    let ghost all = partials@;
    let mut stack = reversed(partials);
    let mut total = identity;
    while stack.len() > 0
        invariant
            stack@.len() <= all.len(),
            forall|a: R, b: R| call_requires(*reduce, (a, b)),
            forall|j: int| 0 <= j < stack@.len() ==> stack@[j] == all[all.len() - 1 - j],
            folds_to(*reduce, identity, all.take(all.len() - stack@.len()), total),
        decreases stack@.len(),
    {
        let ghost done = all.len() - stack@.len();
        let ghost before = total;
        match stack.pop() {
            Some(partial) => {
                total = reduce(total, partial);
                proof {
                    let next = all.take(done + 1);
                    assert(next.len() == done + 1);
                    assert(next.drop_last() =~= all.take(done));
                    assert(next.last() == partial);
                    assert(folds_to(*reduce, identity, next.drop_last(), before));
                    assert(call_ensures(*reduce, (before, next.last()), total));
                    lemma_fold_one_more(*reduce, identity, all.take(done), before, partial, total);
                    assert(all.take(done).push(partial) =~= next);
                }
            },
            None => {},
        }
    }
    proof {
        assert(all.take(all.len() as int) =~= all);
    }
    total
}

/// One-shot parallel reduction: splits `items` into consecutive chunks of at
/// most `chunk_size`, runs `compute` once on each chunk, and folds the
/// partial results with `reduce`, starting from `identity`, in the order of
/// the chunks.
///
/// A host that runs the tasks in parallel and folds their results as they
/// complete gets this same total if `reduce` is associative and commutative;
/// that is the caller's responsibility and is not checked.
pub fn dispatch_fan_out<T: Copy, R, C: Fn(Vec<T>) -> R, G: Fn(R, R) -> R>(
    items: &Vec<T>,
    chunk_size: usize,
    compute: C,
    reduce: G,
    identity: R,
) -> (total: R)
    requires
        chunk_size > 0,
        forall|task: Vec<T>| call_requires(compute, (task,)),
        forall|a: R, b: R| call_requires(reduce, (a, b)),
    ensures
        exists|partials: Seq<R>|
            fanned_out(compute, items@, chunk_size as nat, partials) && folds_to(
                reduce,
                identity,
                partials,
                total,
            ),
{
    let partials = fan_out(items, chunk_size, &compute);
    fan_in(partials, &reduce, identity)
}

} // verus!
