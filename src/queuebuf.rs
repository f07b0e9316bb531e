//! Circular byte buffer whose storage length is a power of two.
//!
//! One slot is always left unused, so that `curr == next` means empty and
//! `curr == inc(next)` means full: a buffer of `N` bytes holds up to `N - 1`.

use vstd::prelude::*;

verus! {

/// `n` is 1, 2, 4, 8, ...
pub open spec fn is_power_of_two(n: nat) -> bool
    decreases n,
{
    if n <= 1 {
        n == 1
    } else {
        n % 2 == 0 && is_power_of_two(n / 2)
    }
}

/// `m + 1` is a power of two, so `& m` reduces an index modulo `m + 1`.
pub open spec fn is_mask(m: u16) -> bool {
    (m as u32) & ((m + 1) as u32) == 0
}

proof fn lemma_mask_of_power_of_two(n: nat)
    requires
        is_power_of_two(n),
        n <= 0x10000,
    ensures
        is_mask((n - 1) as u16),
    decreases n,
{
    if n > 1 {
        lemma_mask_of_power_of_two(n / 2);
        let a = (n / 2 - 1) as u16;
        let b = (n - 1) as u16;
        assert(b == 2 * a + 1);
        assert((b as u32) & ((b + 1) as u32) == 0) by (bit_vector)
            requires
                (a as u32) & ((a + 1) as u32) == 0,
                b == 2 * a + 1,
                a < 0x8000,
        ;
    } else {
        assert((0u16 as u32) & ((0u16 + 1) as u32) == 0) by (bit_vector);
    }
}

proof fn lemma_mask_inc(v: u16, m: u16)
    requires
        is_mask(m),
        v <= m,
    ensures
        (v.wrapping_add(1) & m) == if v == m { 0 } else { (v + 1) as u16 },
{
    assert((v.wrapping_add(1) & m) == if v == m { 0 } else { (v + 1) as u16 }) by (bit_vector)
        requires
            (m as u32) & ((m + 1) as u32) == 0,
            v <= m,
            v.wrapping_add(1) == if v == 0xffff { 0 } else { (v + 1) as u16 },
    ;
}

proof fn lemma_mask_distance(n: u16, c: u16, m: u16)
    requires
        is_mask(m),
        n <= m,
        c <= m,
    ensures
        (n.wrapping_sub(c) & m) as int == if n >= c { n - c } else { n + m + 1 - c },
{
    assert((n.wrapping_sub(c) & m) as int == if n >= c { n - c } else { n + m + 1 - c })
        by (bit_vector)
        requires
            (m as u32) & ((m + 1) as u32) == 0,
            n <= m,
            c <= m,
            n.wrapping_sub(c) == if n >= c { (n - c) as u16 } else { (n + 0x10000 - c) as u16 },
    ;
}

/// Single-producer, single-consumer byte queue: the producer moves only
/// `next`, the consumer only `curr`.
pub struct QueueBuf {
    buf: Vec<u8>,
    mask: u16,
    /// Slot of the oldest byte, the next one `get` returns.
    curr: u16,
    /// Slot that the next `put` writes.
    next: u16,
}

impl QueueBuf {
    /// Length of the backing storage.
    pub closed spec fn size(&self) -> nat {
        self.buf@.len()
    }

    /// Number of bytes a well-formed buffer can hold at once.
    pub open spec fn capacity(&self) -> nat {
        (self.size() - 1) as nat
    }

    /// Number of bytes currently buffered.
    pub closed spec fn len(&self) -> nat {
        if self.next >= self.curr {
            (self.next - self.curr) as nat
        } else {
            (self.next + self.size() - self.curr) as nat
        }
    }

    /// Storage slot of the `i`-th buffered byte, oldest first.
    closed spec fn slot(&self, i: int) -> int {
        if self.curr + i < self.size() {
            self.curr + i
        } else {
            self.curr + i - self.size()
        }
    }

    pub closed spec fn wf(&self) -> bool {
        &&& self.buf@.len() == self.mask + 1
        &&& is_mask(self.mask)
        &&& self.curr <= self.mask
        &&& self.next <= self.mask
    }

    /// Advances a cursor by one slot, wrapping at the end of the storage.
    #[inline]
    fn inc(&self, val: u16) -> (r: u16)
        requires
            self.wf(),
            val <= self.mask,
        ensures
            r == if val == self.mask { 0 } else { (val + 1) as u16 },
    {
        proof {
            lemma_mask_inc(val, self.mask);
        }
        val.wrapping_add(1) & self.mask
    }
}

impl View for QueueBuf {
    type V = Seq<u8>;

    /// The buffered bytes, oldest first.
    closed spec fn view(&self) -> Seq<u8> {
        Seq::new(self.len(), |i: int| self.buf@[self.slot(i)])
    }
}

impl QueueBuf {
    /// Takes `arr` as the storage; the buffer starts empty.
    pub fn new(arr: Vec<u8>) -> (r: QueueBuf)
        requires
            is_power_of_two(arr@.len()),
            arr@.len() <= 0x10000,
        ensures
            r.wf(),
            r.size() == arr@.len(),
            r@ == Seq::<u8>::empty(),
    {
        let n: usize = arr.len();
        proof {
            lemma_mask_of_power_of_two(n as nat);
        }
        let r = QueueBuf { buf: arr, mask: (n - 1) as u16, curr: 0, next: 0 };
        assert(r@ =~= Seq::<u8>::empty());
        r
    }

    #[inline]
    pub fn has_data(&self) -> (r: bool)
        requires
            self.wf(),
        ensures
            r == (self@.len() > 0),
    {
        self.curr != self.next
    }

    /// Number of bytes that can still be put before the buffer is full.
    #[inline]
    pub fn slots_left(&self) -> (r: u16)
        requires
            self.wf(),
        ensures
            r == self.capacity() - self@.len(),
    {
        proof {
            lemma_mask_distance(self.next, self.curr, self.mask);
        }
        self.mask - (self.next.wrapping_sub(self.curr) & self.mask)
    }

    #[inline]
    pub fn is_full(&self) -> (r: bool)
        requires
            self.wf(),
        ensures
            r == (self@.len() == self.capacity()),
    {
        self.curr == self.inc(self.next)
    }

    #[inline]
    pub fn is_empty(&self) -> (r: bool)
        requires
            self.wf(),
        ensures
            r == (self@.len() == 0),
    {
        self.curr == self.next
    }

    /// Appends `val` after the bytes already buffered.
    pub fn put(&mut self, val: u8)
        requires
            old(self).wf(),
            old(self)@.len() < old(self).capacity(),
        ensures
            final(self).wf(),
            final(self).size() == old(self).size(),
            final(self)@ == old(self)@.push(val),
            final(self)@ == step_held(old(self)@, Some(val)),
    {
        self.buf.set(self.next as usize, val);
        self.next = self.inc(self.next);
        assert(self@ =~= old(self)@.push(val));
    }

    /// Removes and returns the oldest buffered byte.
    pub fn get(&mut self) -> (r: u8)
        requires
            old(self).wf(),
            old(self)@.len() > 0,
        ensures
            final(self).wf(),
            final(self).size() == old(self).size(),
            r == old(self)@[0],
            final(self)@ == old(self)@.drop_first(),
            final(self)@ == step_held(old(self)@, None),
            seq![r] == step_taken(old(self)@, None),
    {
        let val = self.buf[self.curr as usize];
        self.curr = self.inc(self.curr);
        assert(self@ =~= old(self)@.drop_first());
        val
    }
}

/// A buffer never holds more than its capacity, one less than its storage.
pub proof fn lemma_len_within_capacity(q: &QueueBuf)
    requires
        q.wf(),
    ensures
        q@.len() <= q.capacity(),
        q.capacity() + 1 == q.size(),
{
}

/// A step of a run on a buffer: `Some(b)` puts `b`, `None` gets a byte.
pub open spec fn step_held(held: Seq<u8>, op: Option<u8>) -> Seq<u8> {
    match op {
        Some(b) => held.push(b),
        None => held.drop_first(),
    }
}

/// What a step hands out: the oldest byte for a get, nothing for a put.
pub open spec fn step_taken(held: Seq<u8>, op: Option<u8>) -> Seq<u8> {
    match op {
        Some(_) => Seq::empty(),
        None => seq![held[0]],
    }
}

/// The contents after the steps `ops`, starting from `held`.
pub open spec fn run_held(held: Seq<u8>, ops: Seq<Option<u8>>) -> Seq<u8>
    decreases ops.len(),
{
    if ops.len() == 0 {
        held
    } else {
        step_held(run_held(held, ops.drop_last()), ops.last())
    }
}

/// The bytes handed out by the steps `ops`, in order.
pub open spec fn run_taken(held: Seq<u8>, ops: Seq<Option<u8>>) -> Seq<u8>
    decreases ops.len(),
{
    if ops.len() == 0 {
        Seq::empty()
    } else {
        run_taken(held, ops.drop_last()) + step_taken(run_held(held, ops.drop_last()), ops.last())
    }
}

/// The bytes put by the steps `ops`, in order.
pub open spec fn run_put(ops: Seq<Option<u8>>) -> Seq<u8>
    decreases ops.len(),
{
    if ops.len() == 0 {
        Seq::empty()
    } else {
        match ops.last() {
            Some(b) => run_put(ops.drop_last()).push(b),
            None => run_put(ops.drop_last()),
        }
    }
}

/// Every step of `ops` meets the precondition of `put` or `get` on a buffer
/// of capacity `cap`: no put on a full buffer, no get on an empty one.
pub open spec fn run_allowed(held: Seq<u8>, ops: Seq<Option<u8>>, cap: nat) -> bool {
    forall|i: int|
        0 <= i < ops.len() ==> match #[trigger] ops[i] {
            Some(_) => run_held(held, ops.take(i)).len() < cap,
            None => run_held(held, ops.take(i)).len() > 0,
        }
}

/// First in, first out: after any run of `put` and `get` that respects the
/// capacity, the bytes got, followed by those still held, are the bytes held
/// at the start followed by those put, in the same order. `put` and `get`
/// each take one step of such a run.
pub proof fn lemma_fifo(held: Seq<u8>, ops: Seq<Option<u8>>, cap: nat)
    requires
        run_allowed(held, ops, cap),
    ensures
        run_taken(held, ops) + run_held(held, ops) == held + run_put(ops),
    decreases ops.len(),
{
    if ops.len() > 0 {
        let init = ops.drop_last();
        assert forall|i: int| 0 <= i < init.len() implies match #[trigger] init[i] {
            Some(_) => run_held(held, init.take(i)).len() < cap,
            None => run_held(held, init.take(i)).len() > 0,
        } by {
            assert(init[i] == ops[i]);
            assert(init.take(i) =~= ops.take(i));
        }
        lemma_fifo(held, init, cap);
        let before = run_held(held, init);
        let last = ops.last();
        assert(ops.take(ops.len() - 1) =~= init);
        assert(ops[ops.len() - 1] == last);
        match last {
            Some(b) => {
                assert(run_taken(held, init) + before.push(b) =~= (run_taken(held, init)
                    + before).push(b));
                assert((held + run_put(init)).push(b) =~= held + run_put(init).push(b));
            },
            None => {
                assert(before.len() > 0);
                assert(run_taken(held, init) + seq![before[0]] + before.drop_first() =~= run_taken(
                    held,
                    init,
                ) + before);
            },
        }
    }
}

} // verus!
