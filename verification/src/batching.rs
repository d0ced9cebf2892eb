//! Splitting evicted entries into persistence batches.

use vstd::prelude::*;

verus! {

/// `items` cut into consecutive batches of `size`; only the last may be shorter, and
/// none is empty.
pub open spec fn chunked<T>(items: Seq<T>, size: nat) -> Seq<Seq<T>>
    recommends
        size > 0,
    decreases items.len(),
{
    if items.len() == 0 || size == 0 {
        Seq::empty()
    } else if items.len() <= size {
        seq![items]
    } else {
        seq![items.take(size as int)] + chunked(items.skip(size as int), size)
    }
}

/// The batches laid end to end.
pub open spec fn flattened<T>(batches: Seq<Seq<T>>) -> Seq<T>
    decreases batches.len(),
{
    if batches.len() == 0 {
        Seq::empty()
    } else {
        batches.first() + flattened(batches.drop_first())
    }
}

pub open spec fn batches_view<T>(batches: Seq<Vec<T>>) -> Seq<Seq<T>> {
    Seq::new(batches.len(), |i: int| batches[i]@)
}

/// Cuts `items` into batches of `batch_size`, keeping their order.
pub fn into_batches<T>(items: Vec<T>, batch_size: usize) -> (batches: Vec<Vec<T>>)
    requires
        batch_size > 0,
    ensures
        batches_view(batches@) == chunked(items@, batch_size as nat),
{
    let mut batches: Vec<Vec<T>> = Vec::new();
    let mut rest = items;
    let ghost all = rest@;
    while rest.len() > batch_size
        invariant
            batch_size > 0,
            batches_view(batches@) + chunked(rest@, batch_size as nat) == chunked(
                all,
                batch_size as nat,
            ),
        decreases rest.len(),
    {
        let tail = rest.split_off(batch_size);
        batches.push(rest);
        rest = tail;
    }
    if rest.len() > 0 {
        batches.push(rest);
    }
    batches
}

/// No batch is empty or longer than `size`, and every batch but the last is full.
pub proof fn law_batch_sizes<T>(items: Seq<T>, size: nat)
    requires
        size > 0,
    ensures
        forall|i: int|
            0 <= i < chunked(items, size).len() ==> 1 <= (#[trigger] chunked(items, size)[i]).len()
                <= size,
        forall|i: int|
            0 <= i < chunked(items, size).len() - 1 ==> (#[trigger] chunked(items, size)[i]).len()
                == size,
    decreases items.len(),
{
    if items.len() > size {
        law_batch_sizes(items.skip(size as int), size);
        let rest = chunked(items.skip(size as int), size);
        let whole = chunked(items, size);
        assert forall|i: int| 0 <= i < whole.len() implies 1 <= (#[trigger] whole[i]).len()
            <= size by {
            if i > 0 {
                assert(whole[i] == rest[i - 1]);
            }
        }
        assert forall|i: int| 0 <= i < whole.len() - 1 implies (#[trigger] whole[i]).len()
            == size by {
            if i > 0 {
                assert(whole[i] == rest[i - 1]);
            }
        }
    }
}

/// The batches hold every item once, in the order given.
pub proof fn law_batches_keep_items<T>(items: Seq<T>, size: nat)
    requires
        size > 0,
    ensures
        flattened(chunked(items, size)) == items,
    decreases items.len(),
{
    if items.len() == 0 {
    } else if items.len() <= size {
        let whole = chunked(items, size);
        assert(whole.len() == 1);
        assert(whole.drop_first() =~= Seq::<Seq<T>>::empty());
        assert(flattened(whole.drop_first()) =~= Seq::<T>::empty());
        assert(flattened(whole) =~= items);
    } else {
        law_batches_keep_items(items.skip(size as int), size);
        let whole = chunked(items, size);
        assert(whole.len() >= 1);
        assert(whole.drop_first() =~= chunked(items.skip(size as int), size));
        assert(flattened(whole) =~= items);
    }
}

/// The number of batches is the number of items divided by `size`, rounded up.
pub proof fn law_batch_count<T>(items: Seq<T>, size: nat)
    requires
        size > 0,
    ensures
        chunked(items, size).len() == (items.len() + size - 1) / size as int,
    decreases items.len(),
{
    let n = items.len() as int;
    let d = size as int;
    if n == 0 {
        assert((n + d - 1) / d == 0) by (nonlinear_arith)
            requires
                n == 0,
                d > 0,
        ;
    } else if n <= d {
        assert((n + d - 1) / d == 1) by (nonlinear_arith)
            requires
                0 < n <= d,
        ;
    } else {
        law_batch_count(items.skip(d), size);
        assert((n + d - 1) / d == (n - d + d - 1) / d + 1) by (nonlinear_arith)
            requires
                n > d,
                d > 0,
        ;
    }
}

} // verus!
