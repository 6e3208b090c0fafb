use vstd::prelude::*;
use vstd::arithmetic::power2::pow2;
use vstd::bits::low_bits_mask;

verus! {

/// `n` is a power of two that fits a usize.
pub open spec fn is_pow2(n: usize) -> bool {
    exists|k: nat| k < usize::BITS && #[trigger] pow2(k) == n
}

/// The slot `i` places after `tail` in a ring of `n` slots, for `tail < n` and `i <= n`.
pub open spec fn ring_slot(tail: int, i: int, n: int) -> int {
    if tail + i < n {
        tail + i
    } else {
        tail + i - n
    }
}

/// A bounded first-in first-out queue of `N` slots, `N` a power of two.
#[derive(Debug)]
pub struct SpscRing<T: Copy, const N: usize> {
    tail: usize,
    count: usize,
    buf: Vec<Option<T>>,
}

impl<T: Copy, const N: usize> SpscRing<T, N> {
    /// The queued items, oldest first.
    pub closed spec fn view(&self) -> Seq<T> {
        Seq::new(
            self.count as nat,
            |i: int| self.buf@[ring_slot(self.tail as int, i, N as int)].unwrap(),
        )
    }

    pub closed spec fn wf(&self) -> bool {
        &&& is_pow2(N)
        &&& self.buf@.len() == N
        &&& self.tail < N
        &&& self.count <= N
        &&& forall|i: int|
            0 <= i < self.count ==> (#[trigger] self.buf@[ring_slot(
                self.tail as int,
                i,
                N as int,
            )]) is Some
    }

    /// A well-formed queue holds at most `N` items.
    pub proof fn lemma_len_bound(&self)
        requires
            self.wf(),
        ensures
            self@.len() <= N,
    {
    }

    pub fn new() -> (r: Self)
        requires
            is_pow2(N),
        ensures
            r.wf(),
            r@ == Seq::<T>::empty(),
    {
        let mut buf: Vec<Option<T>> = Vec::new();
        let mut i: usize = 0;
        while i < N
            invariant
                i <= N,
                buf@.len() == i,
            decreases N - i,
        {
            buf.push(None);
            i = i + 1;
        }
        let r = Self { tail: 0, count: 0, buf };
        proof {
            let k = choose|k: nat| k < usize::BITS && #[trigger] pow2(k) == N;
            vstd::arithmetic::power2::lemma_pow2_pos(k);
        }
        assert(r@ =~= Seq::<T>::empty());
        r
    }

    fn mask() -> (r: usize)
        requires
            N > 0,
        ensures
            r == N - 1,
    {
        N - 1
    }

    /// Slot index of `x` in the ring, for `x < 2 * N`.
    fn wrap(x: usize) -> (r: usize)
        requires
            is_pow2(N),
            x < 2 * N,
        ensures
            r == (if x < N { x as int } else { x - N }),
    {
        proof {
            let k = choose|k: nat| k < usize::BITS && #[trigger] pow2(k) == N;
            vstd::arithmetic::power2::lemma_pow2_pos(k);
            vstd::bits::lemma_usize_low_bits_mask_is_mod(x, k);
            assert(low_bits_mask(k) == N - 1);
            let n = N as int;
            let xi = x as int;
            assert(xi % n == (if xi < n { xi } else { xi - n })) by (nonlinear_arith)
                requires
                    0 <= xi < 2 * n,
                    n > 0,
            ;
        }
        x & Self::mask()
    }

    /// Appends `val`; hands it back when all `N` slots are taken.
    pub fn push(&mut self, val: T) -> (r: Result<(), T>)
        requires
            old(self).wf(),
        ensures
            final(self).wf(),
            old(self)@.len() == N ==> r == Err::<(), T>(val) && final(self)@ == old(self)@,
            old(self)@.len() < N ==> r is Ok && final(self)@ == old(self)@.push(val),
            (final(self)@, if r is Ok { 1int } else { 0int }, 0int) == ring_run(old(self)@, seq![Some(val)], N as int),
    {
        proof {
            let ops = seq![Some(val)];
            assert(ops.drop_last() =~= Seq::<Option<T>>::empty());
            assert(ops.last() == Some(val));
            assert(ring_run(self@, ops.drop_last(), N as int) == (self@, 0int, 0int));
        }
        if self.count == N {
            return Err(val);
        }
        let idx = if self.count < N - self.tail {
            self.tail + self.count
        } else {
            self.count - (N - self.tail)
        };
        let ghost old_buf = self.buf@;
        self.buf.set(idx, Some(val));
        self.count = self.count + 1;
        proof {
            assert forall|i: int| 0 <= i < self.count implies (#[trigger] self.buf@[ring_slot(
                self.tail as int,
                i,
                N as int,
            )]) is Some by {
                if i < self.count - 1 {
                    assert(old_buf[ring_slot(self.tail as int, i, N as int)] is Some);
                }
            }
            assert(self@ =~= old(self)@.push(val));
        }
        Ok(())
    }

    pub fn is_empty(&self) -> (r: bool)
        requires
            self.wf(),
        ensures
            r == (self@.len() == 0),
    {
        self.count == 0
    }

    /// Removes and returns the oldest item, if any.
    pub fn pop(&mut self) -> (r: Option<T>)
        requires
            old(self).wf(),
        ensures
            final(self).wf(),
            old(self)@.len() == 0 ==> r is None && final(self)@ == old(self)@,
            old(self)@.len() > 0 ==> r == Some(old(self)@[0]) && final(self)@ == old(
                self,
            )@.drop_first(),
            (final(self)@, 0int, if r is Some { 1int } else { 0int }) == ring_run(old(self)@, seq![None::<T>], N as int),
    {
        proof {
            let ops = seq![None::<T>];
            assert(ops.drop_last() =~= Seq::<Option<T>>::empty());
            assert(ops.last() == None::<T>);
            assert(ring_run(self@, ops.drop_last(), N as int) == (self@, 0int, 0int));
        }
        if self.count == 0 {
            return None;
        }
        assert(self.buf@[ring_slot(self.tail as int, 0, N as int)] is Some);
        let val = self.buf[self.tail].unwrap();
        let ghost old_tail = self.tail;
        self.tail = Self::wrap(self.tail + 1);
        self.count = self.count - 1;
        proof {
            assert forall|i: int| 0 <= i < self.count implies (#[trigger] self.buf@[ring_slot(
                self.tail as int,
                i,
                N as int,
            )]) is Some by {
                assert(ring_slot(self.tail as int, i, N as int) == ring_slot(old_tail as int, i + 1, N as int));
                assert(self.buf@[ring_slot(old_tail as int, i + 1, N as int)] is Some);
            }
            assert forall|i: int| 0 <= i < self.count implies #[trigger] self@[i] == old(self)@.drop_first()[i] by {
                assert(ring_slot(self.tail as int, i, N as int) == ring_slot(old_tail as int, i + 1, N as int));
            }
            assert(self@ =~= old(self)@.drop_first());
        }
        Some(val)
    }

    pub fn len(&self) -> (r: usize)
        requires
            self.wf(),
        ensures
            r == self@.len(),
    {
        self.count
    }
}

/// The contents of a ring of `n` slots holding `q` after the history `ops`, oldest
/// first (`Some(x)`: a push of `x`; `None`: a pop), as `push` and `pop` describe
/// each step; with the number of pushes that were taken and of pops that gave an
/// item.
pub open spec fn ring_run<T>(q: Seq<T>, ops: Seq<Option<T>>, n: int) -> (Seq<T>, int, int)
    decreases ops.len(),
{
    if ops.len() == 0 {
        (q, 0, 0)
    } else {
        let prev = ring_run(q, ops.drop_last(), n);
        match ops.last() {
            Some(x) => if prev.0.len() < n {
                (prev.0.push(x), prev.1 + 1, prev.2)
            } else {
                prev
            },
            None => if prev.0.len() > 0 {
                (prev.0.drop_first(), prev.1, prev.2 + 1)
            } else {
                prev
            },
        }
    }
}

/// From an empty ring, after any history of pushes and pops, the ring holds as
/// many items as pushes were taken minus pops that gave an item, never more than
/// its slots.
pub proof fn law_ring_count<T>(ops: Seq<Option<T>>, n: int)
    requires
        n >= 0,
    ensures
        ring_run(Seq::<T>::empty(), ops, n).0.len() == ring_run(Seq::<T>::empty(), ops, n).1 - ring_run(
            Seq::<T>::empty(),
            ops,
            n,
        ).2,
        ring_run(Seq::<T>::empty(), ops, n).0.len() <= n,
    decreases ops.len(),
{
    if ops.len() > 0 {
        law_ring_count(ops.drop_last(), n);
    }
}

/// First in, first out: a push does not change which item a pop hands out
/// next, and the pushed item stays last in what the pop leaves.
pub proof fn law_ring_fifo<T>(q: Seq<T>, x: T)
    ensures
        q.push(x)[0] == (if q.len() == 0 { x } else { q[0] }),
        q.push(x).drop_first() == (if q.len() == 0 { Seq::<T>::empty() } else { q.drop_first().push(x) }),
{
    if q.len() == 0 {
        assert(q.push(x).drop_first() =~= Seq::<T>::empty());
    } else {
        assert(q.push(x).drop_first() =~= q.drop_first().push(x));
    }
}

} // verus!
