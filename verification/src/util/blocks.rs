//! Collecting a stream of samples into blocks of a fixed size, as a
//! transform that works on whole blocks needs them.

use vstd::prelude::*;

verus! {

/// What pushing `x` does to the samples `pending` of a buffer of blocks of
/// `size`: the block it completes, if any, and the samples left pending.
pub open spec fn block_push<T>(pending: Seq<T>, size: nat, x: T) -> (Option<Seq<T>>, Seq<T>) {
    if pending.push(x).len() == size {
        (Some(pending.push(x)), Seq::empty())
    } else {
        (None, pending.push(x))
    }
}

/// Collects samples one at a time and hands them out `size` at a time.
pub struct BlockBuffer<T> {
    size: usize,
    pending: Vec<T>,
}

impl<T> BlockBuffer<T> {
    /// The number of samples per block.
    pub closed spec fn block_size(&self) -> nat {
        self.size as nat
    }

    /// The samples collected since the last block, oldest first.
    pub closed spec fn pending(&self) -> Seq<T> {
        self.pending@
    }

    /// An empty buffer for blocks of `size` samples.
    pub fn new(size: usize) -> (r: Self)
        ensures
            r.block_size() == size,
            r.pending() == Seq::<T>::empty(),
    {
        BlockBuffer { size, pending: Vec::new() }
    }

    /// Adds a sample. When it completes a block, returns the block, oldest
    /// sample first, and starts the next one empty; otherwise returns `None`
    /// and keeps the sample.
    pub fn push(&mut self, x: T) -> (r: Option<Vec<T>>)
        ensures
            final(self).block_size() == old(self).block_size(),
            (match r {
                Some(v) => Some(v@),
                None => None,
            }, final(self).pending()) == block_push(old(self).pending(), old(self).block_size(), x),
    {
        self.pending.push(x);
        if self.pending.len() == self.size {
            let mut block: Vec<T> = Vec::new();
            std::mem::swap(&mut block, &mut self.pending);
            Some(block)
        } else {
            None
        }
    }
}

/// Feeding the samples `xs` one by one to a buffer of blocks of `size` that
/// holds `pending`: the blocks handed out, in order, and what stays pending.
pub open spec fn feed<T>(pending: Seq<T>, size: nat, xs: Seq<T>) -> (Seq<Seq<T>>, Seq<T>)
    decreases xs.len(),
{
    if xs.len() == 0 {
        (Seq::empty(), pending)
    } else {
        let prev = feed(pending, size, xs.drop_last());
        let step = block_push(prev.1, size, xs.last());
        (
            match step.0 {
                Some(b) => prev.0.push(b),
                None => prev.0,
            },
            step.1,
        )
    }
}

/// The whole blocks of `size` samples in `xs`, in order.
pub open spec fn chunks<T>(xs: Seq<T>, size: nat) -> Seq<Seq<T>> {
    Seq::new(xs.len() / size, |k: int| xs.subrange(k * size, (k + 1) * size))
}

/// A buffer fed a stream from empty hands out the stream's consecutive
/// blocks of `size` samples, each when its last sample arrives, and holds
/// the samples after the last whole block.
pub proof fn lemma_feed_hands_out_blocks<T>(xs: Seq<T>, size: nat)
    requires
        size >= 1,
    ensures
        feed(Seq::<T>::empty(), size, xs).0 == chunks(xs, size),
        feed(Seq::<T>::empty(), size, xs).1 == xs.subrange((xs.len() / size) * size as int, xs.len() as int),
    decreases xs.len(),
{
    if xs.len() > 0 {
        let ys = xs.drop_last();
        let x = xs.last();
        lemma_feed_hands_out_blocks(ys, size);
        let m = ys.len();
        let q = m / size;
        let r = m % size;
        assert(m == q * size + r && 0 <= r < size) by (nonlinear_arith)
            requires size >= 1, q == m / size, r == m % size;
        let prev = feed(Seq::<T>::empty(), size, ys);
        assert(prev.1.len() == r);
        assert(prev.1.push(x) =~= xs.subrange(q * size as int, xs.len() as int));
        if r + 1 == size {
            assert((m + 1) / size == q + 1) by (nonlinear_arith)
                requires m == q * size + r, r + 1 == size, size >= 1;
            assert(xs.subrange(((m + 1) / size) * size as int, xs.len() as int) =~= Seq::<T>::empty()) by {
                assert(((m + 1) / size) * size == m + 1) by (nonlinear_arith)
                    requires (m + 1) / size == q + 1, m + 1 == q * size + size;
            }
            assert forall|k: int| 0 <= k < q implies #[trigger] chunks(ys, size)[k] == chunks(xs, size)[k] by {
                assert(0 <= k * size && k * size + size == (k + 1) * size && (k + 1) * size <= q * size)
                    by (nonlinear_arith)
                    requires 0 <= k, k + 1 <= q, size >= 1;
                assert(ys.subrange(k * size, (k + 1) * size) =~= xs.subrange(k * size, (k + 1) * size));
            }
            assert(q * size + size == (q + 1) * size) by (nonlinear_arith);
            assert(chunks(ys, size).push(prev.1.push(x)) =~= chunks(xs, size));
        } else {
            assert((m + 1) / size == q) by (nonlinear_arith)
                requires m == q * size + r, r + 1 < size, size >= 1;
            assert forall|k: int| 0 <= k < q implies #[trigger] chunks(ys, size)[k] == chunks(xs, size)[k] by {
                assert(0 <= k * size && k * size + size == (k + 1) * size && (k + 1) * size <= q * size)
                    by (nonlinear_arith)
                    requires 0 <= k, k + 1 <= q, size >= 1;
                assert(ys.subrange(k * size, (k + 1) * size) =~= xs.subrange(k * size, (k + 1) * size));
            }
            assert(chunks(ys, size) =~= chunks(xs, size));
        }
    } else {
        assert(chunks(xs, size) =~= Seq::<Seq<T>>::empty());
        assert(xs.subrange(0, 0) =~= Seq::<T>::empty());
    }
}

} // verus!
