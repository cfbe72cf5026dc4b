//! A bounded first-in first-out ring of trades, for handing hot trade data
//! from a producer to the aggregation loop.
//!
//! The ring has a power-of-two capacity and keeps one slot free: it is empty
//! when head equals tail and full when advancing head would reach tail, so
//! it holds at most `capacity - 1` items.

use vstd::prelude::*;

verus! {

proof fn lemma_mask_is_mod(x: usize, k: u32)
    requires
        4 <= k <= 24,
        x <= (1usize << k),
    ensures
        x & (((1usize << k) - 1) as usize) == x % (1usize << k),
        (1usize << k) >= 16,
        (1usize << k) <= 0x100_0000,
{
    assert(x & (((1usize << k) - 1) as usize) == x % (1usize << k)) by (bit_vector)
        requires
            4 <= k <= 24,
            x <= (1usize << k),
    ;
    assert((1usize << k) >= 16 && (1usize << k) <= 0x100_0000) by (bit_vector)
        requires
            4 <= k <= 24,
    ;
}

proof fn lemma_mod_cases(x: int, m: int)
    requires
        m > 0,
        0 <= x < 2 * m,
    ensures
        x < m ==> x % m == x,
        x >= m ==> x % m == x - m,
{
    if x < m {
        vstd::arithmetic::div_mod::lemma_small_mod(x as nat, m as nat);
    } else {
        vstd::arithmetic::div_mod::lemma_small_mod((x - m) as nat, m as nat);
        vstd::arithmetic::div_mod::lemma_mod_sub_multiples_vanish(x, m);
    }
}

/// Bounded FIFO ring buffer with power-of-two capacity.
pub struct HotTradesRing<T> {
    buf: Vec<Option<T>>,
    head: usize,
    tail: usize,
    mask: usize,
    log2: u32,
}

impl<T> HotTradesRing<T> {
    /// The number of slots, one of which always stays free.
    pub closed spec fn capacity(&self) -> nat {
        (self.mask + 1) as nat
    }

    /// How many items the ring holds.
    pub closed spec fn spec_len(&self) -> nat {
        if self.head >= self.tail {
            (self.head - self.tail) as nat
        } else {
            (self.mask + 1 - self.tail + self.head) as nat
        }
    }

    /// The items in the ring, oldest first.
    pub closed spec fn view(&self) -> Seq<T> {
        Seq::new(self.spec_len(), |i: int| self.buf@[(self.tail + i) % (self.mask + 1)]->0)
    }

    /// The ring's internal invariant.
    pub closed spec fn wf(&self) -> bool {
        &&& 4 <= self.log2 <= 24
        &&& self.mask + 1 == (1usize << self.log2)
        &&& self.buf@.len() == self.mask + 1
        &&& self.head <= self.mask
        &&& self.tail <= self.mask
        &&& forall|i: int| 0 <= i < self.spec_len() ==> (#[trigger] self.buf@[(self.tail + i) % (self.mask + 1)]) is Some
    }

}

impl<T: Copy> HotTradesRing<T> {
    /// Create a ring with `2^capacity_log2` slots; `capacity_log2` must lie
    /// between 4 and 24.
    pub fn new(capacity_log2: u32) -> (r: Self)
        requires
            4 <= capacity_log2 <= 24,
        ensures
            r.wf(),
            r.capacity() == (1usize << capacity_log2),
            r@ == Seq::<T>::empty(),
    {
        proof {
            lemma_mask_is_mod(0, capacity_log2);
        }
        let capacity: usize = 1usize << capacity_log2;
        let mut buf: Vec<Option<T>> = Vec::new();
        let mut i: usize = 0;
        while i < capacity
            invariant
                i <= capacity,
                buf@.len() == i,
            decreases capacity - i,
        {
            buf.push(None);
            i = i + 1;
        }
        let r = HotTradesRing { buf, head: 0, tail: 0, mask: capacity - 1, log2: capacity_log2 };
        assert(r@ =~= Seq::<T>::empty());
        r
    }

    /// Push a trade to the ring. Returns false if full.
    pub fn push_trade(&mut self, trade: T) -> (ok: bool)
        requires
            old(self).wf(),
        ensures
            final(self).wf(),
            final(self).capacity() == old(self).capacity(),
            ok == (old(self)@.len() + 1 < old(self).capacity()),
            ok ==> final(self)@ == old(self)@.push(trade),
            !ok ==> final(self)@ == old(self)@,
    {
        proof {
            lemma_mask_is_mod((self.head + 1) as usize, self.log2);
            lemma_mod_cases(self.head + 1, self.mask + 1);
            lemma_mod_cases(self.tail + self.spec_len(), self.mask + 1);
        }
        let head = self.head;
        let next_head = (head + 1) & self.mask;
        let tail = self.tail;
        if next_head == tail {
            return false;
        }
        let ghost old_view = self@;
        let ghost cap = self.mask + 1;
        let ghost n = self.spec_len();
        assert((self.tail + n) % cap == head) by {
            if self.head >= self.tail {
                assert(self.tail + n == head);
            } else {
                assert(self.tail + n == head + cap);
            }
        }
        self.buf.set(head, Some(trade));
        self.head = next_head;
        assert(self.spec_len() == n + 1) by {
            if head + 1 < cap {
                assert(next_head == head + 1);
            } else {
                assert(next_head == 0);
            }
        }
        assert forall|i: int| 0 <= i < n implies #[trigger] self.buf@[(self.tail + i) % cap] == old(self).buf@[(
        self.tail + i) % cap] by {
            lemma_mod_cases(self.tail + i, cap);
        }
        assert forall|i: int| 0 <= i < n + 1 implies (#[trigger] self.buf@[(self.tail + i) % cap]) is Some by {
            lemma_mod_cases(self.tail + i, cap);
        }
        assert(self@ =~= old_view.push(trade));
        true
    }

    /// Move every held trade, oldest first, to the end of `out`. Returns how
    /// many were moved; the ring is then empty.
    pub fn drain_to(&mut self, out: &mut Vec<T>) -> (count: usize)
        requires
            old(self).wf(),
        ensures
            final(self).wf(),
            final(self).capacity() == old(self).capacity(),
            count == old(self)@.len(),
            final(out)@ == old(out)@ + old(self)@,
            final(self)@ == Seq::<T>::empty(),
    {
        let tail = self.tail;
        let head = self.head;
        if tail == head {
            assert(self@ =~= Seq::<T>::empty());
            assert(out@ =~= old(out)@ + old(self)@);
            return 0;
        }
        let ghost contents = self@;
        let ghost cap = self.mask + 1;
        proof {
            lemma_mod_cases(tail as int, cap);
        }
        let mut count: usize = 0;
        let mut current = tail;
        while current != head
            invariant
                contents == old(self)@,
                cap == self.mask + 1,
                self.mask + 1 == (1usize << self.log2),
                4 <= self.log2 <= 24,
                self.buf@.len() == cap,
                self.head == head,
                self.tail == tail,
                head <= self.mask,
                tail <= self.mask,
                count <= contents.len(),
                current == (tail + count) % cap,
                contents.len() == self.spec_len(),
                (current == head) == (count == contents.len()),
                out@ == old(out)@ + contents.subrange(0, count as int),
                forall|i: int| 0 <= i < contents.len() ==> contents[i] == (#[trigger] self.buf@[(tail + i) % cap])->0,
                forall|i: int| 0 <= i < contents.len() ==> (#[trigger] self.buf@[(tail + i) % cap]) is Some,
            decreases contents.len() - count,
        {
            proof {
                lemma_mask_is_mod((current + 1) as usize, self.log2);
            }
            let item = match self.buf[current] {
                Some(t) => t,
                None => {
                    assert(false);
                    return count;
                },
            };
            out.push(item);
            current = (current + 1) & self.mask;
            count = count + 1;
            proof {
                lemma_mod_cases(tail + count - 1, cap);
                lemma_mod_cases(tail + count, cap);
                lemma_mod_cases(((tail + count - 1) % cap) + 1, cap);
                assert(out@ =~= old(out)@ + contents.subrange(0, count as int));
            }
        }
        self.tail = head;
        assert(self@ =~= Seq::<T>::empty());
        assert(contents.subrange(0, count as int) =~= contents);
        count
    }

    /// Get current buffer usage
    pub fn len(&self) -> (n: usize)
        requires
            self.wf(),
        ensures
            n == self@.len(),
            n < self.capacity(),
    {
        if self.head >= self.tail {
            self.head - self.tail
        } else {
            (self.mask + 1) - self.tail + self.head
        }
    }

    /// Check if buffer is empty
    pub fn is_empty(&self) -> (b: bool)
        requires
            self.wf(),
        ensures
            b == (self@.len() == 0),
    {
        self.head == self.tail
    }
}

} // verus!
