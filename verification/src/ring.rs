//! The ring of the latest samples that passed from the decoder to the output.
use vstd::prelude::*;

use crate::single::{Single, ZERO_BITS};

verus! {

/// How many samples the player keeps for the visualizer.
pub const RING_SIZE: usize = 1024;

/// How many values a `usize` has: a write count starts again at 0 when it gets there.
pub open spec fn count_range() -> int {
    usize::MAX + 1
}

/// What a ring holds: its slots, and the count of writes, which wraps around.
#[verifier::ext_equal]
pub struct Ring {
    pub slots: Seq<Single>,
    pub position: int,
}

impl Ring {
    pub open spec fn wf(self) -> bool {
        0 <= self.position < count_range()
    }

    /// The slot that a write at `count` uses.
    pub open spec fn slot(self, count: int) -> int {
        (count % count_range()) % (self.slots.len() as int)
    }

    /// All slots, in the order of the writes from `position` on.
    pub open spec fn window(self) -> Seq<Single> {
        Seq::new(self.slots.len(), |i: int| self.slots[self.slot(self.position + i)])
    }

    pub open spec fn pushed(self, value: Single) -> Ring {
        Ring {
            slots: self.slots.update(self.slot(self.position), value),
            position: (self.position + 1) % count_range(),
        }
    }

    /// The ring after a push of every value of `values`, from the first on.
    pub open spec fn pushed_all(self, values: Seq<Single>) -> Ring
        decreases values.len(),
    {
        if values.len() == 0 {
            self
        } else {
            self.pushed_all(values.drop_last()).pushed(values.last())
        }
    }

    /// The write count does not wrap within the next `writes` writes and the read that follows
    /// them, or wraps unnoticed since its range is a multiple of the size.
    pub open spec fn steady(self, writes: int) -> bool {
        ||| count_range() % (self.slots.len() as int) == 0
        ||| self.position + writes + self.slots.len() <= count_range()
    }
}

pub open spec fn fresh(size: nat) -> Ring {
    Ring { slots: Seq::new(size, |i: int| Single { bits: ZERO_BITS }), position: 0 }
}

pub struct RingBuffer {
    data: Vec<Single>,
    write_pos: usize,
}

impl View for RingBuffer {
    type V = Ring;

    closed spec fn view(&self) -> Ring {
        Ring { slots: self.data@, position: self.write_pos as int }
    }
}

impl RingBuffer {
    /// A ring of `size` silent samples.
    pub fn new(size: usize) -> (res: RingBuffer)
        ensures
            res@ == fresh(size as nat),
            res@.wf(),
            res@.slots.len() == size,
            forall|i: int| 0 <= i < size ==> (#[trigger] res@.slots[i]).bits == 0,
            res@.position == 0,
    {
        let res = RingBuffer { data: vec![Single { bits: ZERO_BITS }; size], write_pos: 0 };
        assert(res@ =~= fresh(size as nat));
        res
    }

    pub fn len(&self) -> (res: usize)
        ensures
            res == self@.slots.len(),
    {
        self.data.len()
    }

    /// Writes `value` over the oldest sample.
    pub fn push(&mut self, value: Single)
        requires
            old(self)@.slots.len() > 0,
        ensures
            final(self)@ == old(self)@.pushed(value),
            final(self)@.wf(),
            final(self)@.slots == old(self)@.slots.update(
                old(self)@.position % old(self)@.slots.len() as int,
                value,
            ),
            final(self)@.position == if old(self)@.position == usize::MAX {
                0
            } else {
                old(self)@.position + 1
            },
            old(self)@.steady(1) ==> final(self)@.window() == old(self)@.window().drop_first().push(
                value,
            ),
    {
        let ghost before = self@;
        let pos: usize = self.write_pos % self.data.len();
        self.data.set(pos, value);
        self.write_pos = self.write_pos.wrapping_add(1);
        proof {
            lemma_wrap(before.position);
            lemma_wrap(before.position + 1);
            assert(self@ =~= before.pushed(value));
            if before.steady(1) {
                lemma_window_after_push(before, value);
            }
        }
    }

    /// The samples, from the oldest to the latest.
    pub fn snapshot(&self) -> (res: Vec<Single>)
        ensures
            res@ == self@.window(),
            res@.len() == self@.slots.len(),
            forall|i: int|
                0 <= i < res@.len() ==> #[trigger] res@[i] == self@.slots[((self@.position + i) % (
                usize::MAX + 1)) % res@.len() as int],
    {
        let len: usize = self.data.len();
        let mut out: Vec<Single> = Vec::new();
        let start: usize = self.write_pos;
        let mut i: usize = 0;
        while i < len
            invariant
                i <= len,
                len == self.data.len(),
                start == self.write_pos,
                out@ =~= self@.window().take(i as int),
            decreases len - i,
        {
            let count: usize = start.wrapping_add(i);
            proof {
                lemma_wrap(start + i);
            }
            out.push(self.data[count % len]);
            i = i + 1;
        }
        assert(self@.window().take(len as int) =~= self@.window());
        out
    }

    /// Passes on what the decoder gave, and keeps a copy of it where it is a sample.
    pub fn tap(&mut self, item: Option<Single>) -> (res: Option<Single>)
        requires
            old(self)@.slots.len() > 0,
        ensures
            res == item,
            item matches Some(value) ==> final(self)@ == old(self)@.pushed(value),
            item matches Some(value) ==> final(self)@.slots == old(self)@.slots.update(
                old(self)@.position % old(self)@.slots.len() as int,
                value,
            ),
            item is None ==> final(self)@ == old(self)@,
    {
        if let Some(value) = item {
            self.push(value);
            Some(value)
        } else {
            None
        }
    }
}

/// A count within two turns of its range wraps around at most once.
proof fn lemma_wrap(count: int)
    requires
        0 <= count < 2 * count_range(),
    ensures
        count % count_range() == if count < count_range() {
            count
        } else {
            count - count_range()
        },
{
    let range = count_range();
    if count < range {
        vstd::arithmetic::div_mod::lemma_small_mod(count as nat, range as nat);
    } else {
        vstd::arithmetic::div_mod::lemma_mod_sub_multiples_vanish(count, range);
        vstd::arithmetic::div_mod::lemma_small_mod((count - range) as nat, range as nat);
    }
}

/// Where the range of the count is a multiple of the size, wrapping the count changes no slot.
proof fn lemma_wrap_unnoticed(count: int, size: int)
    requires
        size > 0,
        count_range() % size == 0,
    ensures
        (count % count_range()) % size == count % size,
{
    let times = count_range() / size;
    vstd::arithmetic::div_mod::lemma_fundamental_div_mod(count_range(), size);
    assert(count_range() == size * times);
    assert(times > 0) by (nonlinear_arith)
        requires
            count_range() == size * times,
            size > 0,
            count_range() > 0,
    ;
    vstd::arithmetic::div_mod::lemma_mod_mod(count, size, times);
}

/// Two counts less than a full turn apart use different slots; a full turn comes back.
proof fn lemma_slots_differ(p: int, j: int, size: int)
    requires
        0 <= p,
        0 < j <= size,
    ensures
        j < size ==> (p + j) % size != p % size,
        j == size ==> (p + j) % size == p % size,
{
    if j == size {
        vstd::arithmetic::div_mod::lemma_mod_add_multiples_vanish(p, size);
    } else if (p + j) % size == p % size {
        vstd::arithmetic::div_mod::lemma_mod_equivalence(p + j, p, size);
        vstd::arithmetic::div_mod::lemma_small_mod(j as nat, size as nat);
    }
}

proof fn lemma_window_after_push(ring: Ring, value: Single)
    requires
        ring.wf(),
        ring.slots.len() > 0,
        ring.steady(1),
    ensures
        ring.pushed(value).window() == ring.window().drop_first().push(value),
{
    let size = ring.slots.len() as int;
    let after = ring.pushed(value);
    let shifted = ring.window().drop_first().push(value);
    assert forall|i: int| 0 <= i < size implies after.window()[i] == shifted[i] by {
        let count = ring.position + 1 + i;
        lemma_wrap(ring.position);
        lemma_wrap(ring.position + 1);
        assert((after.position + i) % count_range() == count % count_range()) by {
            if ring.position + 1 == count_range() {
                vstd::arithmetic::div_mod::lemma_mod_sub_multiples_vanish(count, count_range());
            }
        }
        lemma_slots_differ(ring.position, i + 1, size);
        if count_range() % size == 0 {
            lemma_wrap_unnoticed(count, size);
        } else {
            lemma_wrap(count);
        }
    }
    assert(after.window() =~= shifted);
}

/// A ring keeps the latest samples, in the order in which they came: after any pushes its window
/// is the end of what it held before followed by what was pushed.
pub proof fn law_window_is_latest(ring: Ring, values: Seq<Single>)
    requires
        ring.wf(),
        ring.slots.len() > 0,
        ring.steady(values.len() as int),
    ensures
        ring.pushed_all(values).window() == (ring.window() + values).skip(values.len() as int),
        ring.pushed_all(values).wf(),
        ring.pushed_all(values).slots.len() == ring.slots.len(),
        ring.pushed_all(values).position == (ring.position + values.len()) % count_range(),
    decreases values.len(),
{
    if values.len() == 0 {
        lemma_wrap(ring.position);
        assert((ring.window() + values).skip(0) =~= ring.window());
    } else {
        let init = values.drop_last();
        let mid = ring.pushed_all(init);
        law_window_is_latest(ring, init);
        assert(mid.steady(1)) by {
            if count_range() % (ring.slots.len() as int) != 0 {
                lemma_wrap(ring.position + init.len());
            }
        }
        lemma_window_after_push(mid, values.last());
        lemma_wrap(mid.position + 1);
        assert((mid.position + 1) % count_range() == (ring.position + values.len())
            % count_range()) by {
            vstd::arithmetic::div_mod::lemma_add_mod_noop(
                ring.position + init.len(),
                1,
                count_range(),
            );
            vstd::arithmetic::div_mod::lemma_add_mod_noop(mid.position, 1, count_range());
            vstd::arithmetic::div_mod::lemma_mod_twice(
                ring.position + init.len(),
                count_range(),
            );
        }
        let before = (ring.window() + init).skip(init.len() as int);
        assert(before.drop_first().push(values.last()) =~= (ring.window() + values).skip(
            values.len() as int,
        ));
    }
}

/// The player's own ring keeps its order however many samples pass: `RING_SIZE` divides the range
/// of the write count.
pub proof fn law_player_ring_is_steady(ring: Ring, writes: int)
    requires
        ring.slots.len() == RING_SIZE,
    ensures
        ring.steady(writes),
{
    assert(count_range() % 1024 == 0) by {
        assert(usize::MAX == 0xffff_ffff || usize::MAX == 0xffff_ffff_ffff_ffff);
    }
}

/// A new ring shows as many samples as it has slots, each of them silent.
pub proof fn law_new_ring_is_silent(size: nat, i: int)
    requires
        0 <= i < size,
    ensures
        fresh(size).window().len() == size,
        fresh(size).window()[i].bits == 0,
{
    vstd::arithmetic::div_mod::lemma_mod_bound(i % count_range(), size as int);
}

/// What the player's ring shows is the end of what it showed before followed by the samples that
/// came since, in their order, wherever its write count stands.
pub proof fn law_player_ring_shows_latest(ring: Ring, values: Seq<Single>)
    requires
        ring.slots.len() == 1024,
        0 <= ring.position <= usize::MAX,
    ensures
        ring.pushed_all(values).window() == (ring.window() + values).skip(values.len() as int),
{
    law_player_ring_is_steady(ring, values.len() as int);
    law_window_is_latest(ring, values);
}

/// After at least as many samples as it has slots, a ring shows nothing but the latest of them,
/// the oldest first.
pub proof fn law_full_ring_shows_last_samples(size: nat, values: Seq<Single>)
    requires
        0 < size <= values.len(),
        values.len() + size <= usize::MAX,
    ensures
        fresh(size).pushed_all(values).window() == values.skip(values.len() - size),
{
    let ring = fresh(size);
    law_window_is_latest(ring, values);
    assert((ring.window() + values).skip(values.len() as int) =~= values.skip(
        values.len() - size,
    ));
}

/// Until it is full, a ring shows its samples behind the silence that it started with.
pub proof fn law_filling_ring_ends_in_samples(size: nat, values: Seq<Single>)
    requires
        values.len() <= size,
        0 < size,
        values.len() + size <= usize::MAX,
    ensures
        ({
            let window = fresh(size).pushed_all(values).window();
            &&& window.len() == size
            &&& window.skip(size - values.len()) == values
            &&& forall|i: int| 0 <= i < size - values.len() ==> (#[trigger] window[i]).bits == 0
        }),
{
    let ring = fresh(size);
    law_window_is_latest(ring, values);
    let window = ring.pushed_all(values).window();
    assert(window.skip(size - values.len()) =~= values);
    assert forall|i: int| 0 <= i < size - values.len() implies (#[trigger] window[i]).bits == 0 by {
        law_new_ring_is_silent(size, i + values.len());
    }
}

/// A push writes the sample into one slot and leaves every other as it is.
pub proof fn law_push_writes_one_slot(ring: Ring, value: Single, i: int)
    requires
        0 <= ring.position <= usize::MAX,
        0 <= i < ring.slots.len(),
    ensures
        ring.pushed(value).slots.len() == ring.slots.len(),
        i == ring.position % ring.slots.len() as int ==> ring.pushed(value).slots[i] == value,
        i != ring.position % ring.slots.len() as int ==> ring.pushed(value).slots[i]
            == ring.slots[i],
        ring.position < usize::MAX ==> ring.pushed(value).position == ring.position + 1,
        ring.position == usize::MAX ==> ring.pushed(value).position == 0,
{
    lemma_wrap(ring.position);
    lemma_wrap(ring.position + 1);
}

} // verus!
