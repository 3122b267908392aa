//! A bounded byte FIFO that makes room for new data by discarding its
//! oldest bytes, a fixed number of bytes at a time.
use std::collections::VecDeque;
use vstd::prelude::*;

verus! {

/// How many of `len` queued bytes `rounds` rounds of `unit` bytes remove:
/// whole units while there are enough bytes, then whatever is left.
pub open spec fn evicted_len(len: nat, unit: nat, rounds: nat) -> nat {
    if rounds * unit < len {
        rounds * unit
    } else {
        len
    }
}

/// Bytes one discarding round takes from a queue of `queued` bytes when
/// rounds are of `unit` bytes: `unit`, or the whole queue when `unit` is 0.
pub open spec fn round_len(unit: nat, queued: nat) -> nat {
    if unit > 0 {
        unit
    } else {
        queued
    }
}

/// How many of the oldest incoming bytes cannot be kept at all: those
/// beyond the newest `limit`.
pub open spec fn trimmed_len(incoming_len: nat, limit: nat) -> nat {
    if incoming_len > limit {
        (incoming_len - limit) as nat
    } else {
        0
    }
}

/// Discarding rounds among `drops` drops: one drop goes to trimming the
/// incoming bytes when they alone exceed `limit`.
pub open spec fn queue_rounds(incoming_len: nat, limit: nat, drops: nat) -> int {
    if incoming_len > limit {
        drops - 1
    } else {
        drops as int
    }
}

/// `after` and `drops` are what a drop-oldest push of `incoming` into a
/// ring holding `before` with room for `limit` bytes gives. Rounds of
/// `unit` oldest queued bytes (the last round takes what is left) are
/// discarded until the incoming bytes fit or the queue is empty, as few
/// rounds as that takes; each round is one drop. Then the incoming bytes
/// are appended; when they alone exceed `limit`, only their newest `limit`
/// bytes are kept, and that counts as one more drop.
pub open spec fn drop_oldest_push(
    before: Seq<u8>,
    incoming: Seq<u8>,
    limit: nat,
    unit: nat,
    after: Seq<u8>,
    drops: nat,
) -> bool {
    let u = round_len(unit, before.len());
    let total = before.len() + incoming.len();
    let rounds = queue_rounds(incoming.len(), limit, drops);
    let evicted = evicted_len(before.len(), u, rounds as nat);
    &&& rounds >= 0
    &&& after == before.skip(evicted as int) + incoming.skip(trimmed_len(incoming.len(), limit) as int)
    &&& (evicted == before.len() || before.len() - evicted + incoming.len() <= limit)
    &&& rounds > 0 ==> (rounds - 1) * u < before.len() && (rounds - 1) * u < total - limit
}

/// Law (drop-oldest): a push never leaves more than `limit` bytes queued and
/// discards only the oldest bytes: what is queued afterwards is the newest
/// part of the old contents followed by the incoming bytes. Incoming bytes
/// that fit are all kept, at the end; of incoming bytes that do not fit,
/// the newest `limit` are kept and nothing else.
pub proof fn law_push_keeps_newest(
    before: Seq<u8>,
    incoming: Seq<u8>,
    limit: nat,
    unit: nat,
    after: Seq<u8>,
    drops: nat,
)
    requires
        drop_oldest_push(before, incoming, limit, unit, after, drops),
    ensures
        after.len() <= limit,
        after == (before + incoming).skip(before.len() + incoming.len() - after.len()),
        incoming.len() <= limit ==> after.len() >= incoming.len() && after.skip(after.len() - incoming.len()) == incoming,
        incoming.len() > limit ==> after == incoming.skip(incoming.len() - limit) && drops >= 1,
{
    let u = round_len(unit, before.len());
    let rounds = queue_rounds(incoming.len(), limit, drops);
    let evicted = evicted_len(before.len(), u, rounds as nat) as int;
    let t = trimmed_len(incoming.len(), limit) as int;
    if incoming.len() > limit {
        assert(evicted == before.len());
        assert(after == incoming.skip(t));
        assert(after == (before + incoming).skip(evicted + t));
    } else {
        assert(incoming.skip(0) == incoming);
        assert(after.skip(after.len() - incoming.len()) == incoming);
        assert(after == (before + incoming).skip(evicted));
    }
}

/// Law (no more than needed): when incoming bytes that fit the ring force
/// drops, what remains is short of the limit by less than one round: one
/// round fewer would not have made room.
pub proof fn law_push_drops_no_more_than_needed(
    before: Seq<u8>,
    incoming: Seq<u8>,
    limit: nat,
    unit: nat,
    after: Seq<u8>,
    drops: nat,
)
    requires
        drop_oldest_push(before, incoming, limit, unit, after, drops),
        incoming.len() <= limit,
        drops > 0,
    ensures
        after.len() + round_len(unit, before.len()) > limit,
        before.len() + incoming.len() > limit,
{
    let u = round_len(unit, before.len());
    let r = drops as int;
    assert(r * u == (r - 1) * u + u) by (nonlinear_arith);
}

/// Law: a push that fits discards nothing and appends the incoming bytes.
pub proof fn law_push_with_room_appends(
    before: Seq<u8>,
    incoming: Seq<u8>,
    limit: nat,
    unit: nat,
    after: Seq<u8>,
    drops: nat,
)
    requires
        drop_oldest_push(before, incoming, limit, unit, after, drops),
        before.len() + incoming.len() <= limit,
    ensures
        drops == 0,
        after == before + incoming,
{
    assert(before.skip(0) == before);
    assert(incoming.skip(0) == incoming);
}

/// Law: a push without drops appends the incoming bytes.
pub proof fn law_push_without_drops_appends(
    before: Seq<u8>,
    incoming: Seq<u8>,
    limit: nat,
    unit: nat,
    after: Seq<u8>,
)
    requires
        drop_oldest_push(before, incoming, limit, unit, after, 0),
    ensures
        after == before + incoming,
        before.len() + incoming.len() <= limit,
{
    let u = round_len(unit, before.len());
    assert(queue_rounds(incoming.len(), limit, 0) == 0);
    assert(0 * u == 0);
    assert(evicted_len(before.len(), u, 0) == 0);
    assert(before.skip(0) == before);
    assert(incoming.skip(0) == incoming);
}

/// Law: the drop-oldest policy is deterministic: the same ring, data, limit
/// and unit give the same contents and the same number of drops.
pub proof fn law_push_deterministic(
    before: Seq<u8>,
    incoming: Seq<u8>,
    limit: nat,
    unit: nat,
    after1: Seq<u8>,
    drops1: nat,
    after2: Seq<u8>,
    drops2: nat,
)
    requires
        drop_oldest_push(before, incoming, limit, unit, after1, drops1),
        drop_oldest_push(before, incoming, limit, unit, after2, drops2),
    ensures
        drops1 == drops2,
        after1 == after2,
{
    let u = round_len(unit, before.len());
    let r1 = queue_rounds(incoming.len(), limit, drops1);
    let r2 = queue_rounds(incoming.len(), limit, drops2);
    if r1 < r2 {
        lemma_fewer_rounds_do_not_fit(before, incoming, limit, u, r1 as nat, r2 as nat);
    } else if r2 < r1 {
        lemma_fewer_rounds_do_not_fit(before, incoming, limit, u, r2 as nat, r1 as nat);
    }
}

proof fn lemma_fewer_rounds_do_not_fit(
    before: Seq<u8>,
    incoming: Seq<u8>,
    limit: nat,
    u: nat,
    fewer: nat,
    more: nat,
)
    requires
        fewer < more,
        (more - 1) * u < before.len(),
        (more - 1) * u < before.len() + incoming.len() - limit,
    ensures
        evicted_len(before.len(), u, fewer) < before.len(),
        before.len() - evicted_len(before.len(), u, fewer) + incoming.len() > limit,
{
    vstd::arithmetic::mul::lemma_mul_inequality(fewer as int, more - 1, u as int);
}

/// Law (first in, first out): after a push that fits, taking any number of
/// the queued bytes from the front gives back the old contents followed by
/// the incoming bytes, in order, and what stays is the rest of them.
pub proof fn law_fifo_after_push(
    before: Seq<u8>,
    incoming: Seq<u8>,
    limit: nat,
    unit: nat,
    after: Seq<u8>,
    drops: nat,
    n: int,
)
    requires
        drop_oldest_push(before, incoming, limit, unit, after, drops),
        before.len() + incoming.len() <= limit,
        0 <= n <= after.len(),
    ensures
        after.take(n) == (before + incoming).take(n),
        after.take(n) + after.skip(n) == before + incoming,
{
    law_push_with_room_appends(before, incoming, limit, unit, after, drops);
    assert(after.take(n) + after.skip(n) == after);
}

/// A bounded byte FIFO.
pub struct ByteRing {
    buf: VecDeque<u8>,
    capacity: usize,
}

impl View for ByteRing {
    type V = Seq<u8>;

    /// The queued bytes, oldest first.
    closed spec fn view(&self) -> Seq<u8> {
        self.buf@
    }
}

impl ByteRing {
    /// The most bytes the ring holds.
    pub closed spec fn limit(&self) -> nat {
        self.capacity as nat
    }

    /// The ring holds no more than its limit.
    pub open spec fn wf(&self) -> bool {
        self@.len() <= self.limit()
    }

    /// An empty ring with room for `capacity` bytes.
    pub fn with_capacity(capacity: usize) -> (r: Self)
        ensures
            r.wf(),
            r@ == Seq::<u8>::empty(),
            r.limit() == capacity,
    {
        ByteRing { buf: VecDeque::with_capacity(capacity), capacity }
    }

    /// Number of queued bytes.
    pub fn len(&self) -> (n: usize)
        ensures
            n == self@.len(),
    {
        self.buf.len()
    }

    /// The most bytes the ring holds.
    pub fn capacity(&self) -> (c: usize)
        ensures
            c == self.limit(),
    {
        self.capacity
    }

    /// Removes the `n` oldest bytes.
    fn discard_front(&mut self, n: usize)
        requires
            n <= old(self)@.len(),
        ensures
            final(self)@ == old(self)@.skip(n as int),
            final(self).limit() == old(self).limit(),
    {
        let mut i: usize = 0;
        while i < n
            invariant
                i <= n,
                n <= old(self)@.len(),
                self@ == old(self)@.skip(i as int),
                self.limit() == old(self).limit(),
            decreases n - i,
        {
            self.buf.pop_front();
            i = i + 1;
        }
    }

    /// Removes the `n` oldest bytes and returns them, oldest first.
    pub fn pop_front_n(&mut self, n: usize) -> (front: Vec<u8>)
        requires
            old(self).wf(),
            n <= old(self)@.len(),
        ensures
            final(self).wf(),
            final(self).limit() == old(self).limit(),
            front@ == old(self)@.take(n as int),
            final(self)@ == old(self)@.skip(n as int),
    {
        let mut front: Vec<u8> = Vec::new();
        let mut i: usize = 0;
        while i < n
            invariant
                i <= n,
                n <= old(self)@.len(),
                self@ == old(self)@.skip(i as int),
                front@ == old(self)@.take(i as int),
                self.limit() == old(self).limit(),
            decreases n - i,
        {
            let b = self.buf.pop_front();
            match b {
                Some(x) => {
                    front.push(x);
                },
                None => {},
            }
            i = i + 1;
            assert(old(self)@.take(i as int) == old(self)@.take(i - 1).push(old(self)@[i - 1]));
        }
        front
    }

    /// Appends `data`, first discarding rounds of `unit` oldest bytes (or
    /// all that is left, when fewer are queued; the whole queue when `unit`
    /// is 0) until it fits or the ring is empty. When `data` alone is longer
    /// than the capacity, only its newest bytes that fill the ring are kept.
    /// Returns the number of drops: the discarding rounds, plus one when
    /// incoming bytes were cut.
    pub fn push_drop_oldest(&mut self, data: &[u8], unit: usize) -> (drops: u64)
        requires
            old(self).wf(),
        ensures
            final(self).wf(),
            final(self).limit() == old(self).limit(),
            drop_oldest_push(old(self)@, data@, old(self).limit(), unit as nat, final(self)@, drops as nat),
    {
        let ghost before = self@;
        let ghost limit = self.limit();
        let initial_len = self.buf.len();
        let round = if unit > 0 { unit } else { initial_len };
        let oversized = data.len() > self.capacity;
        let room = if oversized { 0 } else { self.capacity - data.len() };
        let ghost u = round_len(unit as nat, before.len());
        let ghost total = before.len() + data@.len();
        let mut drops: u64 = 0;
        let ghost mut removed: nat = 0;
        while self.buf.len() > room
            invariant
                round == u,
                u == round_len(unit as nat, before.len()),
                total == before.len() + data@.len(),
                initial_len == before.len(),
                before.len() <= limit,
                oversized == (data@.len() > limit),
                room == (if oversized { 0 } else { limit - data@.len() }),
                self.limit() == limit,
                removed <= before.len(),
                self@ == before.skip(removed as int),
                removed == evicted_len(before.len(), u, drops as nat),
                drops <= removed,
                drops > 0 ==> (drops - 1) * u < before.len() && (drops - 1) * u < total - limit,
            decreases self@.len(),
        {
            let queued = self.buf.len();
            let drain = if round < queued { round } else { queued };
            proof {
                assert(removed < before.len());
                assert(removed < total - limit);
                assert(drops * u == removed);
                assert(u > 0);
                assert(drain >= 1);
                assert((drops + 1) * u == drops * u + u) by (nonlinear_arith);
            }
            self.discard_front(drain);
            proof {
                removed = removed + drain as nat;
                assert(before.skip(removed - drain).skip(drain as int) == before.skip(removed as int));
            }
            drops = drops + 1;
        }
        let ghost kept = self@;
        let start = if oversized { data.len() - self.capacity } else { 0 };
        assert(start == trimmed_len(data@.len(), limit));
        let mut i: usize = start;
        while i < data.len()
            invariant
                start <= i <= data@.len(),
                self.limit() == limit,
                self@ == kept + data@.subrange(start as int, i as int),
            decreases data@.len() - i,
        {
            self.buf.push_back(data[i]);
            i = i + 1;
            assert(data@.subrange(start as int, i as int) == data@.subrange(start as int, i - 1).push(data@[i - 1]));
        }
        assert(data@.subrange(start as int, data@.len() as int) == data@.skip(start as int));
        if oversized {
            drops = drops + 1;
        }
        drops
    }
}

} // verus!
