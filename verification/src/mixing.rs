//! Sample buffering and mixing arithmetic for audio playback.
//!
//! Each speaking user gets a [`SampleRing`]: a fixed number of slots with a
//! write position and a read position. Writes never wait for the reader: once
//! the ring is full they overwrite the oldest slots. The mixer sums what every
//! ring hands out, clamping each sum to the 16-bit sample range.

use vstd::prelude::*;
use crate::error::AudioError;

verus! {

/// The slot `i` steps after `start` in a ring of `cap` slots (for `start < cap`, `i < cap`).
pub open spec fn ring_index(start: int, i: int, cap: int) -> int {
    if start + i < cap {
        start + i
    } else {
        start + i - cap
    }
}

/// The slots after writing `samples` one by one, starting at slot `start`, wrapping
/// around the ring: a later sample overwrites an earlier one in the same slot.
pub open spec fn ring_written(slots: Seq<i16>, start: int, samples: Seq<i16>) -> Seq<i16>
    decreases samples.len(),
{
    if samples.len() == 0 {
        slots
    } else {
        ring_written(slots, start, samples.drop_last()).update(
            (start + samples.len() - 1) % (slots.len() as int),
            samples.last(),
        )
    }
}

/// A 16-bit sum, clamped to the range of `i16`.
pub open spec fn clamp_i16(x: int) -> i16 {
    if x < i16::MIN {
        i16::MIN
    } else if x > i16::MAX {
        i16::MAX
    } else {
        x as i16
    }
}

/// Fixed-capacity ring of PCM samples.
pub struct SampleRing {
    buffer: Vec<i16>,
    write_pos: usize,
    read_pos: usize,
}

impl SampleRing {
    /// The slots, in storage order.
    pub closed spec fn slots(&self) -> Seq<i16> {
        self.buffer@
    }

    /// The slot the next write goes to.
    pub closed spec fn write_at(&self) -> int {
        self.write_pos as int
    }

    /// The slot the next read comes from.
    pub closed spec fn read_at(&self) -> int {
        self.read_pos as int
    }

    /// Number of slots.
    pub open spec fn capacity(&self) -> int {
        self.slots().len() as int
    }

    /// Both positions lie inside the ring (and are zero for a ring without slots).
    pub open spec fn wf(&self) -> bool {
        if self.capacity() == 0 {
            self.write_at() == 0 && self.read_at() == 0
        } else {
            0 <= self.write_at() < self.capacity() && 0 <= self.read_at() < self.capacity()
        }
    }

    /// How many samples lie between the read and the write position.
    pub open spec fn pending_len(&self) -> int {
        if self.write_at() >= self.read_at() {
            self.write_at() - self.read_at()
        } else {
            self.capacity() - self.read_at() + self.write_at()
        }
    }

    /// The samples a reader gets next, oldest first.
    pub open spec fn pending(&self) -> Seq<i16> {
        Seq::new(
            self.pending_len() as nat,
            |i: int| self.slots()[ring_index(self.read_at(), i, self.capacity())],
        )
    }

    /// A ring of `capacity` silent slots, empty.
    pub fn new(capacity: usize) -> (r: Self)
        ensures
            r.wf(),
            r.capacity() == capacity,
            forall|i: int| 0 <= i < capacity ==> #[trigger] r.slots()[i] == 0i16,
            r.write_at() == 0,
            r.read_at() == 0,
            r.pending() == Seq::<i16>::empty(),
    {
        let mut buffer: Vec<i16> = Vec::new();
        while buffer.len() < capacity
            invariant
                buffer.len() <= capacity,
                forall|i: int| 0 <= i < buffer.len() ==> #[trigger] buffer@[i] == 0i16,
            decreases capacity - buffer.len(),
        {
            buffer.push(0);
        }
        let r = SampleRing { buffer, write_pos: 0, read_pos: 0 };
        assert(r.pending() =~= Seq::<i16>::empty());
        r
    }

    /// Writes `samples` at the write position, wrapping around and overwriting
    /// whatever the slots held; the read position stays where it is.
    pub fn write(&mut self, samples: &[i16]) -> (r: Result<(), AudioError>)
        requires
            old(self).wf(),
            old(self).capacity() > 0 || samples@.len() == 0,
        ensures
            r is Ok,
            final(self).wf(),
            final(self).read_at() == old(self).read_at(),
            final(self).slots() == ring_written(old(self).slots(), old(self).write_at(), samples@),
            samples@.len() == 0 ==> final(self).write_at() == old(self).write_at(),
            old(self).capacity() > 0 ==> final(self).write_at() == (old(self).write_at()
                + samples@.len()) % old(self).capacity(),
    {
        let n = samples.len();
        let mut i: usize = 0;
        proof {
            if self.capacity() > 0 {
                vstd::arithmetic::div_mod::lemma_small_mod(self.write_at() as nat, self.capacity() as nat);
            }
        }
        while i < n
            invariant
                self.wf(),
                i <= n,
                n == samples@.len(),
                old(self).capacity() > 0 || n == 0,
                self.capacity() == old(self).capacity(),
                self.read_at() == old(self).read_at(),
                i == 0 ==> self.write_at() == old(self).write_at(),
                self.capacity() > 0 ==> self.write_at() == (old(self).write_at() + i) % self.capacity(),
                self.slots() == ring_written(old(self).slots(), old(self).write_at(), samples@.take(i as int)),
            decreases n - i,
        {
            let w = self.write_pos;
            self.buffer.set(w, samples[i]);
            let cap = self.buffer.len();
            let next = w + 1;
            if next == cap {
                self.write_pos = 0;
            } else {
                self.write_pos = next;
            }
            proof {
                lemma_mod_step(old(self).write_at() + i, w as int, self.capacity());
                let taken = samples@.take(i + 1);
                assert(taken.drop_last() =~= samples@.take(i as int));
                assert(taken.last() == samples@[i as int]);
            }
            i += 1;
        }
        assert(samples@.take(n as int) =~= samples@);
        Ok(())
    }

    /// Moves pending samples, oldest first, into the front of `output`, as many as
    /// fit; returns how many were moved. The rest of `output` is left alone.
    pub fn read(&mut self, output: &mut [i16]) -> (count: usize)
        requires
            old(self).wf(),
        ensures
            final(self).wf(),
            count == if old(output)@.len() < old(self).pending_len() {
                old(output)@.len() as int
            } else {
                old(self).pending_len()
            },
            final(self).slots() == old(self).slots(),
            final(self).write_at() == old(self).write_at(),
            final(self).pending() == old(self).pending().skip(count as int),
            final(output)@.len() == old(output)@.len(),
            final(output)@.take(count as int) == old(self).pending().take(count as int),
            final(output)@.skip(count as int) == old(output)@.skip(count as int),
    {
        let ghost start = self.read_pos as int;
        let ghost queue = self.pending();
        let len = output.len();
        let mut count: usize = 0;
        while count < len && self.read_pos != self.write_pos
            invariant
                self.wf(),
                self.slots() == old(self).slots(),
                self.write_at() == old(self).write_at(),
                old(self).wf(),
                queue == old(self).pending(),
                start == old(self).read_at(),
                len == old(output)@.len(),
                output@.len() == len,
                count <= len,
                count <= queue.len(),
                self.capacity() > 0 ==> self.read_at() == ring_index(start, count as int, self.capacity()),
                self.capacity() == 0 ==> count == 0,
                self.pending() == queue.skip(count as int),
                forall|j: int| 0 <= j < count ==> output@[j] == #[trigger] queue[j],
                forall|j: int| count <= j < len ==> output@[j] == #[trigger] old(output)@[j],
            decreases len - count,
        {
            let r = self.read_pos;
            proof {
                assert(self.capacity() > 0);
                assert(queue[count as int] == self.slots()[r as int]);
            }
            let sample = self.buffer[r];
            output[count] = sample;
            let cap = self.buffer.len();
            let next = r + 1;
            if next == cap {
                self.read_pos = 0;
            } else {
                self.read_pos = next;
            }
            proof {
                let cap = self.capacity();
                let r1 = self.read_at();
                assert(r1 == ring_index(start, count + 1, cap));
                assert(self.pending_len() == queue.len() - (count + 1));
                assert forall|j: int| 0 <= j < self.pending_len() implies self.pending()[j]
                    == queue.skip(count + 1)[j] by {
                    assert(ring_index(r1, j, cap) == ring_index(start, count + 1 + j, cap));
                }
                assert(self.pending() =~= queue.skip(count + 1));
            }
            count += 1;
        }
        assert(output@.take(count as int) =~= queue.take(count as int));
        assert(output@.skip(count as int) =~= old(output)@.skip(count as int));
        count
    }

    /// Number of slots.
    pub fn slot_count(&self) -> (n: usize)
        ensures
            n == self.capacity(),
    {
        self.buffer.len()
    }

    /// Number of samples waiting to be read.
    pub fn available(&self) -> (n: usize)
        requires
            self.wf(),
        ensures
            n == self.pending_len(),
    {
        if self.write_pos >= self.read_pos {
            self.write_pos - self.read_pos
        } else {
            self.buffer.len() - self.read_pos + self.write_pos
        }
    }
}

/// How many steps after `start` slot `p` lies in a ring of `cap` slots.
pub open spec fn ring_offset(start: int, p: int, cap: int) -> int {
    if p >= start {
        p - start
    } else {
        p + cap - start
    }
}

/// Within two turns of the ring, the remainder is the wrapped slot.
proof fn lemma_mod_wrap(x: int, cap: int)
    requires
        cap > 0,
        0 <= x < 2 * cap,
    ensures
        x % cap == if x < cap { x } else { x - cap },
{
    if x < cap {
        vstd::arithmetic::div_mod::lemma_fundamental_div_mod_converse(x, cap, 0, x);
    } else {
        vstd::arithmetic::div_mod::lemma_fundamental_div_mod_converse(x, cap, 1, x - cap);
    }
}

/// Writing at most one turn of samples: each slot holds the sample written
/// there, or what it held before if no sample reached it.
proof fn lemma_ring_written_slots(slots: Seq<i16>, start: int, samples: Seq<i16>)
    requires
        0 <= start < slots.len(),
        samples.len() <= slots.len(),
    ensures
        ring_written(slots, start, samples).len() == slots.len(),
        forall|p: int|
            0 <= p < slots.len() ==> #[trigger] ring_written(slots, start, samples)[p] == if ring_offset(
                start,
                p,
                slots.len() as int,
            ) < samples.len() {
                samples[ring_offset(start, p, slots.len() as int)]
            } else {
                slots[p]
            },
    decreases samples.len(),
{
    if samples.len() > 0 {
        let cap = slots.len() as int;
        let prev = samples.drop_last();
        lemma_ring_written_slots(slots, start, prev);
        lemma_mod_wrap(start + samples.len() - 1, cap);
        assert forall|p: int| 0 <= p < cap implies #[trigger] ring_written(slots, start, samples)[p]
            == if ring_offset(start, p, cap) < samples.len() {
            samples[ring_offset(start, p, cap)]
        } else {
            slots[p]
        } by {
            if ring_offset(start, p, cap) < prev.len() {
                assert(prev[ring_offset(start, p, cap)] == samples[ring_offset(start, p, cap)]);
            }
        }
    }
}

/// Writing into a ring with room to spare queues the samples behind the ones
/// still waiting: a reader then gets the old pending samples, then the new ones,
/// in the order they were written. `after` is the ring as `write` leaves it.
pub proof fn written_samples_queue_behind_pending(
    before: SampleRing,
    samples: Seq<i16>,
    after: SampleRing,
)
    requires
        before.wf(),
        before.pending_len() + samples.len() < before.capacity(),
        after.read_at() == before.read_at(),
        after.slots() == ring_written(before.slots(), before.write_at(), samples),
        after.write_at() == (before.write_at() + samples.len()) % before.capacity(),
    ensures
        after.wf(),
        after.pending() == before.pending() + samples,
{
    let cap = before.capacity();
    let r = before.read_at();
    let w = before.write_at();
    let pend = before.pending_len();
    lemma_ring_written_slots(before.slots(), w, samples);
    lemma_mod_wrap(w + samples.len(), cap);
    assert(after.pending_len() == pend + samples.len());
    let expected = before.pending() + samples;
    assert forall|i: int| 0 <= i < after.pending_len() implies after.pending()[i] == expected[i] by {
        let p = ring_index(r, i, cap);
        if i < pend {
            assert(ring_offset(w, p, cap) >= samples.len());
        } else {
            assert(ring_offset(w, p, cap) == i - pend);
        }
    }
    assert(after.pending() =~= expected);
}

/// One step further along a ring of `cap` slots.
proof fn lemma_mod_step(x: int, a: int, cap: int)
    requires
        cap > 0,
        x >= 0,
        x % cap == a,
    ensures
        (x + 1) % cap == if a + 1 == cap { 0 } else { a + 1 },
{
    vstd::arithmetic::div_mod::lemma_fundamental_div_mod(x, cap);
    vstd::arithmetic::div_mod::lemma_fundamental_div_mod(x + 1, cap);
    let q = x / cap;
    assert(cap * q == q * cap) by (nonlinear_arith);
    assert((q + 1) * cap == q * cap + cap) by (nonlinear_arith);
    if a + 1 == cap {
        vstd::arithmetic::div_mod::lemma_fundamental_div_mod_converse(x + 1, cap, q + 1, 0);
    } else {
        vstd::arithmetic::div_mod::lemma_fundamental_div_mod_converse(x + 1, cap, q, a + 1);
    }
}

/// Adds `contribution[i]` into `output[i]` for the first `count` samples, clamping
/// each sum to the `i16` range; later samples of `output` are left alone.
pub fn mix_saturating(output: &mut [i16], contribution: &[i16], count: usize)
    requires
        count <= old(output)@.len(),
        count <= contribution@.len(),
    ensures
        final(output)@.len() == old(output)@.len(),
        forall|i: int|
            0 <= i < count ==> #[trigger] final(output)@[i] == clamp_i16(
                old(output)@[i] + contribution@[i],
            ),
        forall|i: int| count <= i < old(output)@.len() ==> #[trigger] final(output)@[i] == old(output)@[i],
{
    let mut i: usize = 0;
    while i < count
        invariant
            i <= count,
            count <= output@.len(),
            count <= contribution@.len(),
            output@.len() == old(output)@.len(),
            forall|j: int|
                0 <= j < i ==> #[trigger] output@[j] == clamp_i16(old(output)@[j] + contribution@[j]),
            forall|j: int| i <= j < output@.len() ==> #[trigger] output@[j] == old(output)@[j],
        decreases count - i,
    {
        let mixed: i32 = output[i] as i32 + contribution[i] as i32;
        let clamped: i16 = if mixed < -32768 {
            -32768
        } else if mixed > 32767 {
            32767
        } else {
            mixed as i16
        };
        output[i] = clamped;
        i += 1;
    }
}

/// Samples in `span_ms` milliseconds at `sample_rate` samples per second,
/// rounded down.
pub fn samples_in_span(sample_rate: u32, span_ms: u32) -> (n: usize)
    requires
        sample_rate * span_ms <= u32::MAX,
    ensures
        n == sample_rate * span_ms / 1000,
{
    let product: u32 = sample_rate * span_ms;
    (product / 1000) as usize
}

} // verus!
