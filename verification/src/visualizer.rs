//! The bars of the visualizer: which samples a bar stands for, how loud they are, and how a bar
//! and its peak mark move.
use vstd::prelude::*;

use crate::single::{
    finite, law_held_between_0_and_1, law_less_is_smaller, lemma_no_steps, value, Single, TWO_BITS,
    ZERO_BITS,
};

verus! {

/// How many bars there are.
pub const BAR_COUNT: usize = 32;

/// How opaque the glow around a bar is.
pub const GLOW_ALPHA: u8 = 40;

#[derive(Clone, Copy, PartialEq, Eq, Structural, Debug)]
pub struct Rgb {
    pub r: u8,
    pub g: u8,
    pub b: u8,
}

/// How many of `len` samples one bar stands for.
pub open spec fn chunk_size(len: nat) -> nat {
    if len / BAR_COUNT as nat > 1 {
        len / BAR_COUNT as nat
    } else {
        1
    }
}

/// Where the samples of bar `i` start.
pub open spec fn bar_start(len: nat, i: int) -> int {
    i * chunk_size(len)
}

/// Where the samples of bar `i` end.
pub open spec fn bar_end(len: nat, i: int) -> int {
    if bar_start(len, i) + chunk_size(len) < len {
        bar_start(len, i) + chunk_size(len)
    } else {
        len as int
    }
}

/// The greater of two levels; the later one where neither is greater, as with a NaN.
pub open spec fn louder(a: Single, b: Single) -> Single {
    if b.lt(a) {
        a
    } else {
        b
    }
}

/// The greatest magnitude among the samples, taken from the first sample on.
pub open spec fn loudest(samples: Seq<Single>) -> Single
    decreases samples.len(),
{
    if samples.len() <= 1 {
        samples[0].magnitude_of()
    } else {
        louder(loudest(samples.drop_last()), samples.last().magnitude_of())
    }
}

/// How loud the samples of bar `i` are, where it has any.
pub open spec fn bar_level(samples: Seq<Single>, i: int) -> Option<Single> {
    let start = bar_start(samples.len(), i);
    let end = bar_end(samples.len(), i);
    if start < end {
        Some(loudest(samples.subrange(start, end)))
    } else {
        None
    }
}

/// What the arithmetic on a bar came to: its value mixed with the level of its samples, and its
/// peak after a step of decay.
#[derive(Clone, Copy, PartialEq, Eq, Structural, Debug)]
pub struct Blend {
    pub mixed: Single,
    pub decayed: Single,
}

/// What the arithmetic on a bar starts from: its value, its peak mark, and the level of its
/// samples.
#[derive(Clone, Copy, PartialEq, Eq, Structural, Debug)]
pub struct BarInput {
    pub value: Single,
    pub mark: Single,
    pub level: Single,
}

/// The bars and their peak marks.
#[verifier::ext_equal]
pub struct Bars {
    pub body: Seq<Single>,
    pub peak: Seq<Single>,
}

impl Bars {
    /// As many as there should be, and each from 0 to 1 or a NaN.
    pub open spec fn wf(self) -> bool {
        &&& self.body.len() == BAR_COUNT
        &&& self.peak.len() == BAR_COUNT
        &&& forall|i: int| 0 <= i < BAR_COUNT ==> (#[trigger] self.body[i]).unit_or_nan()
        &&& forall|i: int| 0 <= i < BAR_COUNT ==> (#[trigger] self.peak[i]).unit_or_nan()
    }

    /// All bars and marks at 0.
    pub open spec fn flat() -> Bars {
        let zeros = Seq::new(BAR_COUNT as nat, |i: int| Single { bits: ZERO_BITS });
        Bars { body: zeros, peak: zeros }
    }

    /// The bars after one step: one with no samples stays, any other takes its mixed value, and
    /// its mark rises with it or else decays.
    pub open spec fn blended(self, blends: Seq<Option<Blend>>) -> Bars {
        Bars {
            body: Seq::new(
                self.body.len(),
                |i: int|
                    match blends[i] {
                        Some(blend) => blend.mixed.in_unit(),
                        None => self.body[i],
                    },
            ),
            peak: Seq::new(
                self.peak.len(),
                |i: int|
                    match blends[i] {
                        Some(blend) => if self.peak[i].lt(blend.mixed) {
                            blend.mixed.in_unit()
                        } else {
                            blend.decayed.in_unit()
                        },
                        None => self.peak[i],
                    },
            ),
        }
    }
}

fn loudest_in(samples: &Vec<Single>, start: usize, end: usize) -> (res: Single)
    requires
        start < end <= samples.len(),
    ensures
        res == loudest(samples@.subrange(start as int, end as int)),
{
    let mut best = samples[start].abs();
    let mut i: usize = start + 1;
    assert(samples@.subrange(start as int, i as int)[0] == samples@[start as int]);
    while i < end
        invariant
            start < i <= end <= samples.len(),
            best == loudest(samples@.subrange(start as int, i as int)),
        decreases end - i,
    {
        let level = samples[i].abs();
        let ghost longer = samples@.subrange(start as int, i + 1);
        assert(longer.drop_last() =~= samples@.subrange(start as int, i as int));
        if !level.less_than(best) {
            best = level;
        }
        i = i + 1;
    }
    best
}

/// How loud the samples of each bar are.
pub fn levels(samples: &Vec<Single>) -> (res: Vec<Option<Single>>)
    ensures
        res@.len() == BAR_COUNT,
        forall|i: int| 0 <= i < BAR_COUNT ==> #[trigger] res@[i] == bar_level(samples@, i),
{
    let len: usize = samples.len();
    let share: usize = len / BAR_COUNT;
    let chunk: usize = if share > 1 {
        share
    } else {
        1
    };
    let mut res: Vec<Option<Single>> = Vec::new();
    let mut i: usize = 0;
    while i < BAR_COUNT
        invariant
            i <= BAR_COUNT,
            len == samples.len(),
            chunk == chunk_size(len as nat),
            res@.len() == i,
            forall|j: int| 0 <= j < i ==> #[trigger] res@[j] == bar_level(samples@, j),
        decreases BAR_COUNT - i,
    {
        let level = match i.checked_mul(chunk) {
            Some(start) if start < len => {
                let end: usize = if chunk < len - start {
                    start + chunk
                } else {
                    len
                };
                Some(loudest_in(samples, start, end))
            },
            _ => None,
        };
        assert(level == bar_level(samples@, i as int));
        res.push(level);
        i = i + 1;
    }
    res
}

pub struct Visualizer {
    body: Vec<Single>,
    peak: Vec<Single>,
}

impl View for Visualizer {
    type V = Bars;

    closed spec fn view(&self) -> Bars {
        Bars { body: self.body@, peak: self.peak@ }
    }
}

impl Visualizer {
    /// Flat bars.
    pub fn new() -> (res: Visualizer)
        ensures
            res@ == Bars::flat(),
            res@.wf(),
    {
        let zero = Single { bits: ZERO_BITS };
        let res = Visualizer { body: vec![zero; BAR_COUNT], peak: vec![zero; BAR_COUNT] };
        assert(res@ =~= Bars::flat());
        res
    }

    /// Flattens all bars and marks.
    pub fn reset(&mut self)
        ensures
            final(self)@ == Bars::flat(),
            final(self)@.wf(),
    {
        *self = Visualizer::new();
    }

    /// What the arithmetic on each bar starts from, where the bar has samples.
    pub fn inputs(&self, samples: &Vec<Single>) -> (res: Vec<Option<BarInput>>)
        requires
            self@.wf(),
        ensures
            res@.len() == BAR_COUNT,
            forall|i: int|
                0 <= i < BAR_COUNT ==> #[trigger] res@[i] == match bar_level(samples@, i) {
                    Some(level) => Some(
                        BarInput { value: self@.body[i], mark: self@.peak[i], level },
                    ),
                    None => None,
                },
    {
        let heard = levels(samples);
        let mut res: Vec<Option<BarInput>> = Vec::new();
        let mut i: usize = 0;
        while i < BAR_COUNT
            invariant
                i <= BAR_COUNT,
                self@.wf(),
                heard@.len() == BAR_COUNT,
                forall|j: int|
                    0 <= j < BAR_COUNT ==> #[trigger] heard@[j] == bar_level(samples@, j),
                res@.len() == i,
                forall|j: int|
                    0 <= j < i ==> #[trigger] res@[j] == match bar_level(samples@, j) {
                        Some(level) => Some(
                            BarInput { value: self@.body[j], mark: self@.peak[j], level },
                        ),
                        None => None,
                    },
            decreases BAR_COUNT - i,
        {
            let input = match heard[i] {
                Some(level) => Some(BarInput { value: self.body[i], mark: self.peak[i], level }),
                None => None,
            };
            res.push(input);
            i = i + 1;
        }
        res
    }

    /// Moves the bars by one step.
    pub fn update(&mut self, blends: &Vec<Option<Blend>>)
        requires
            old(self)@.wf(),
            blends@.len() == BAR_COUNT,
        ensures
            final(self)@ == old(self)@.blended(blends@),
            final(self)@.wf(),
            forall|i: int|
                #![trigger final(self)@.body[i]]
                #![trigger final(self)@.peak[i]]
                0 <= i < BAR_COUNT && blends@[i] is None ==> final(self)@.body[i] == old(
                    self,
                )@.body[i] && final(self)@.peak[i] == old(self)@.peak[i],
            forall|i: int|
                0 <= i < BAR_COUNT && blends@[i] is Some && blends@[i]->0.mixed.bits <= 0x3f80_0000
                    ==> #[trigger] final(self)@.body[i] == blends@[i]->0.mixed,
    {
        let ghost before = self@;
        let ghost after = self@.blended(blends@);
        let mut i: usize = 0;
        while i < BAR_COUNT
            invariant
                i <= BAR_COUNT,
                blends@.len() == BAR_COUNT,
                before.wf(),
                self@.wf(),
                after == before.blended(blends@),
                forall|j: int| 0 <= j < i ==> #[trigger] self@.body[j] == after.body[j],
                forall|j: int| 0 <= j < i ==> #[trigger] self@.peak[j] == after.peak[j],
                forall|j: int| i <= j < BAR_COUNT ==> #[trigger] self@.body[j] == before.body[j],
                forall|j: int| i <= j < BAR_COUNT ==> #[trigger] self@.peak[j] == before.peak[j],
            decreases BAR_COUNT - i,
        {
            if let Some(blend) = blends[i] {
                let mark = if self.peak[i].less_than(blend.mixed) {
                    blend.mixed
                } else {
                    blend.decayed
                };
                self.body.set(i, blend.mixed.clamp_unit());
                self.peak.set(i, mark.clamp_unit());
            }
            i = i + 1;
        }
        assert(self@ =~= after);
    }

    /// The value of bar `i`.
    pub fn body(&self, i: usize) -> (res: Single)
        requires
            i < self@.body.len(),
        ensures
            res == self@.body[i as int],
    {
        self.body[i]
    }

    /// The peak mark of bar `i`.
    pub fn peak(&self, i: usize) -> (res: Single)
        requires
            i < self@.peak.len(),
        ensures
            res == self@.peak[i as int],
    {
        self.peak[i]
    }
}

/// The colour of a bar: the louder, the more red and green in its blue.
pub open spec fn colour(intensity: u8) -> (int, int, int) {
    (
        if intensity / 3 > 40 {
            intensity as int / 3
        } else {
            40
        },
        if intensity > 80 {
            intensity as int
        } else {
            80
        },
        255 - intensity as int / 3,
    )
}

pub fn bar_colour(intensity: u8) -> (res: Rgb)
    ensures
        (res.r as int, res.g as int, res.b as int) == colour(intensity),
        res.r == if intensity < 123 {
            40
        } else {
            intensity / 3
        },
        res.g == if intensity < 80 {
            80
        } else {
            intensity
        },
        res.b + intensity / 3 == 255,
{
    let third: u8 = intensity / 3;
    Rgb {
        r: if third > 40 {
            third
        } else {
            40
        },
        g: if intensity > 80 {
            intensity
        } else {
            80
        },
        b: 255 - third,
    }
}

/// Whether a bar of that height is drawn.
pub fn shows_body(body_height: Single) -> (res: bool)
    ensures
        res == (Single { bits: ZERO_BITS }).lt(body_height),
        finite(body_height.bits) ==> res == (value(body_height.bits) > 0),
{
    proof {
        let zero = Single { bits: 0 };
        if finite(body_height.bits) {
            law_less_is_smaller(zero, body_height);
            lemma_no_steps();
        }
    }
    Single::zero().less_than(body_height)
}

/// Whether a peak mark is drawn: above its bar, and more than 2 above the ground.
pub fn shows_peak(body_height: Single, peak_height: Single) -> (res: bool)
    ensures
        res == (body_height.lt(peak_height) && (Single { bits: TWO_BITS }).lt(peak_height)),
        finite(body_height.bits) && finite(peak_height.bits) ==> res == (value(peak_height.bits)
            > value(body_height.bits) && value(peak_height.bits) > value(0x4000_0000)),
{
    proof {
        if finite(body_height.bits) && finite(peak_height.bits) {
            law_less_is_smaller(body_height, peak_height);
            law_less_is_smaller(Single { bits: 0x4000_0000 }, peak_height);
        }
    }
    body_height.less_than(peak_height) && (Single { bits: TWO_BITS }).less_than(peak_height)
}

/// Bar `i` has a sample exactly where it starts within the samples, and then ends within them.
/// The samples of the next bar start where its own end.
pub proof fn law_bars_follow_each_other(len: nat, i: int)
    requires
        0 <= i < BAR_COUNT,
    ensures
        bar_start(len, 0) == 0,
        bar_start(len, i) < bar_end(len, i) <==> bar_start(len, i) < len,
        bar_end(len, i) <= len,
        bar_start(len, i) < len ==> bar_end(len, i) == bar_start(len, i + 1) || bar_end(len, i)
            == len,
{
    assert((i + 1) * chunk_size(len) == i * chunk_size(len) + chunk_size(len)) by (nonlinear_arith);
}

/// With at least as many samples as bars, every bar has the same number of them, and fewer samples
/// than there are bars are left over at the end.
pub proof fn law_bars_share_samples(len: nat, i: int)
    requires
        len >= BAR_COUNT,
        0 <= i < BAR_COUNT,
    ensures
        bar_end(len, i) - bar_start(len, i) == len / BAR_COUNT as nat,
        bar_start(len, i + 1) == bar_end(len, i),
        0 <= len - bar_end(len, BAR_COUNT - 1) < BAR_COUNT,
{
    let chunk = chunk_size(len);
    assert((i + 1) * chunk == i * chunk + chunk) by (nonlinear_arith);
    assert((i + 1) * chunk <= BAR_COUNT * chunk) by (nonlinear_arith)
        requires
            i + 1 <= BAR_COUNT,
            chunk >= 0,
    ;
}

/// The player's ring falls to the bars without a rest: sample `k` is one of bar `k / 32`.
pub proof fn law_ring_fills_bars(k: int)
    requires
        0 <= k < crate::ring::RING_SIZE,
    ensures
        0 <= k / 32 < BAR_COUNT,
        bar_start(crate::ring::RING_SIZE as nat, k / 32) <= k < bar_end(
            crate::ring::RING_SIZE as nat,
            k / 32,
        ),
{
    law_bars_share_samples(crate::ring::RING_SIZE as nat, k / 32);
    assert(chunk_size(crate::ring::RING_SIZE as nat) == 32);
    assert(bar_start(crate::ring::RING_SIZE as nat, k / 32) == (k / 32) * 32);
}

/// Among samples none of which is a NaN, the loudest level is the magnitude of one of them, and no
/// other has a greater one.
pub proof fn law_loudest_is_greatest(samples: Seq<Single>)
    requires
        samples.len() > 0,
        forall|i: int| 0 <= i < samples.len() ==> !(#[trigger] samples[i]).nan(),
    ensures
        !loudest(samples).nan(),
        exists|i: int|
            0 <= i < samples.len() && loudest(samples) == (#[trigger] samples[i]).magnitude_of(),
        forall|i: int|
            0 <= i < samples.len() ==> (#[trigger] samples[i]).magnitude() <= loudest(
                samples,
            ).rank(),
    decreases samples.len(),
{
    let rest = samples.drop_last();
    if samples.len() == 1 {
        assert(loudest(samples) == samples[0].magnitude_of());
    } else {
        law_loudest_is_greatest(rest);
        let best = loudest(rest);
        let level = samples.last().magnitude_of();
        let k = choose|i: int| 0 <= i < rest.len() && best == (#[trigger] rest[i]).magnitude_of();
        assert(samples[k] == rest[k]);
        assert(!samples.last().nan());
        assert forall|i: int| 0 <= i < samples.len() implies (#[trigger] samples[i]).magnitude()
            <= loudest(samples).rank() by {
            if i < rest.len() {
                assert(rest[i] == samples[i]);
            }
        }
        if level.lt(best) {
            assert(loudest(samples) == samples[k].magnitude_of());
        } else {
            assert(loudest(samples) == samples[samples.len() - 1].magnitude_of());
        }
    }
}

/// A bar that rises above its mark takes the mark with it; in any other case the mark decays.
pub proof fn law_mark_rises_with_bar(bars: Bars, blends: Seq<Option<Blend>>, i: int)
    requires
        bars.wf(),
        blends.len() == BAR_COUNT,
        0 <= i < BAR_COUNT,
        blends[i] is Some,
    ensures
        bars.peak[i].lt(blends[i]->0.mixed) ==> bars.blended(blends).peak[i] == bars.blended(
            blends,
        ).body[i],
        !bars.peak[i].lt(blends[i]->0.mixed) ==> bars.blended(blends).peak[i]
            == blends[i]->0.decayed.in_unit(),
{
}

/// No sample is a NaN.
pub open spec fn without_nan(samples: Seq<Single>) -> bool {
    forall|i: int| 0 <= i < samples.len() ==> !(#[trigger] samples[i]).nan()
}

/// Some sample has that magnitude.
pub open spec fn occurs(samples: Seq<Single>, magnitude: int) -> bool {
    exists|i: int| 0 <= i < samples.len() && (#[trigger] samples[i]).magnitude() == magnitude
}

/// The same magnitudes occur in both lists.
pub open spec fn same_magnitudes(one: Seq<Single>, two: Seq<Single>) -> bool {
    forall|magnitude: int| #[trigger] occurs(one, magnitude) == occurs(two, magnitude)
}

/// The magnitudes of the samples, in their order.
pub open spec fn magnitudes(samples: Seq<Single>) -> Seq<int> {
    samples.map_values(|sample: Single| sample.magnitude())
}

/// Without NaNs, the loudest level depends only on which magnitudes occur: neither the order of
/// the samples nor their signs matter.
pub proof fn law_loudest_ignores_order_and_sign(one: Seq<Single>, two: Seq<Single>)
    requires
        one.len() > 0,
        two.len() > 0,
        without_nan(one),
        without_nan(two),
        same_magnitudes(one, two),
    ensures
        loudest(one) == loudest(two),
{
    law_loudest_is_greatest(one);
    law_loudest_is_greatest(two);
    let level = loudest(one).rank();
    let i = choose|i: int| 0 <= i < one.len() && loudest(one) == (
    #[trigger] one[i]).magnitude_of();
    assert(one[i].magnitude() == level);
    assert(occurs(one, level));
    let other = loudest(two).rank();
    let j = choose|j: int| 0 <= j < two.len() && loudest(two) == (
    #[trigger] two[j]).magnitude_of();
    assert(two[j].magnitude() == other);
    assert(occurs(two, other));
    assert(occurs(one, other) && occurs(two, level));
    assert(level == other);
}

/// A list that is another one reordered, with any signs flipped, has the same magnitudes.
pub proof fn law_reordering_keeps_magnitudes(one: Seq<Single>, two: Seq<Single>)
    requires
        magnitudes(one).to_multiset() == magnitudes(two).to_multiset(),
    ensures
        same_magnitudes(one, two),
        one.len() == two.len(),
        without_nan(one) ==> without_nan(two),
{
    broadcast use vstd::seq_lib::group_to_multiset_ensures;

    let a = magnitudes(one);
    let b = magnitudes(two);
    assert(a.len() == a.to_multiset().len());
    assert(b.len() == b.to_multiset().len());
    assert forall|magnitude: int| #[trigger] occurs(one, magnitude) == occurs(two, magnitude) by {
        lemma_occurs(one, magnitude);
        lemma_occurs(two, magnitude);
    }
    if without_nan(one) {
        assert forall|j: int| 0 <= j < two.len() implies !(#[trigger] two[j]).nan() by {
            assert(occurs(two, two[j].magnitude()));
            assert(occurs(one, two[j].magnitude()));
        }
    }
}

proof fn lemma_occurs(samples: Seq<Single>, magnitude: int)
    ensures
        occurs(samples, magnitude) <==> magnitudes(samples).to_multiset().count(magnitude) > 0,
{
    broadcast use vstd::seq_lib::group_to_multiset_ensures;

    let all = magnitudes(samples);
    if occurs(samples, magnitude) {
        let i = choose|i: int|
            0 <= i < samples.len() && (#[trigger] samples[i]).magnitude() == magnitude;
        assert(all[i] == magnitude);
    }
    if all.contains(magnitude) {
        let i = choose|i: int| 0 <= i < all.len() && all[i] == magnitude;
        assert(samples[i].magnitude() == magnitude);
    }
    assert(all.contains(magnitude) <==> all.to_multiset().count(magnitude) > 0);
}

/// The samples of bar `i`.
pub open spec fn bar_samples(samples: Seq<Single>, i: int) -> Seq<Single> {
    samples.subrange(bar_start(samples.len(), i), bar_end(samples.len(), i))
}

/// What an arithmetic makes of the bars and of the levels of the samples: `mix` of a bar and the
/// level of its samples, and `decay` of its mark.
pub open spec fn blends_of(
    bars: Bars,
    samples: Seq<Single>,
    mix: spec_fn(Single, Single) -> Single,
    decay: spec_fn(Single) -> Single,
) -> Seq<Option<Blend>> {
    Seq::new(
        BAR_COUNT as nat,
        |i: int|
            match bar_level(samples, i) {
                Some(level) => Some(
                    Blend { mixed: mix(bars.body[i], level), decayed: decay(bars.peak[i]) },
                ),
                None => None,
            },
    )
}

/// Two lists of as many samples without NaNs, in which each bar's samples have the same
/// magnitudes, move the bars alike, whatever the arithmetic is.
pub proof fn law_bars_ignore_order_and_sign(
    bars: Bars,
    one: Seq<Single>,
    two: Seq<Single>,
    mix: spec_fn(Single, Single) -> Single,
    decay: spec_fn(Single) -> Single,
)
    requires
        bars.wf(),
        one.len() == two.len(),
        without_nan(one),
        without_nan(two),
        forall|i: int|
            0 <= i < BAR_COUNT && bar_start(one.len(), i) < one.len() ==> same_magnitudes(
                #[trigger] bar_samples(one, i),
                bar_samples(two, i),
            ),
    ensures
        forall|i: int|
            0 <= i < BAR_COUNT ==> #[trigger] bar_level(one, i) == bar_level(two, i),
        bars.blended(blends_of(bars, one, mix, decay)) == bars.blended(
            blends_of(bars, two, mix, decay),
        ),
{
    assert forall|i: int| 0 <= i < BAR_COUNT implies #[trigger] bar_level(one, i) == bar_level(
        two,
        i,
    ) by {
        law_bars_follow_each_other(one.len(), i);
        assert(bar_start(one.len(), i) >= 0) by (nonlinear_arith)
            requires
                i >= 0,
                bar_start(one.len(), i) == i * chunk_size(one.len()),
                chunk_size(one.len()) >= 0,
        ;
        if bar_start(one.len(), i) < one.len() {
            assert(same_magnitudes(bar_samples(one, i), bar_samples(two, i)));
            assert(without_nan(bar_samples(one, i)));
            assert(without_nan(bar_samples(two, i)));
            law_loudest_ignores_order_and_sign(bar_samples(one, i), bar_samples(two, i));
        }
    }
    assert(blends_of(bars, one, mix, decay) =~= blends_of(bars, two, mix, decay));
}

/// Samples that are reordered within their bars, with any signs flipped, move the bars alike,
/// whatever the arithmetic is.
pub proof fn law_bars_ignore_reordering(
    bars: Bars,
    one: Seq<Single>,
    two: Seq<Single>,
    mix: spec_fn(Single, Single) -> Single,
    decay: spec_fn(Single) -> Single,
)
    requires
        bars.wf(),
        one.len() == two.len(),
        without_nan(one),
        without_nan(two),
        forall|i: int|
            0 <= i < BAR_COUNT && bar_start(one.len(), i) < one.len() ==> magnitudes(
                #[trigger] bar_samples(one, i),
            ).to_multiset() == magnitudes(bar_samples(two, i)).to_multiset(),
    ensures
        bars.blended(blends_of(bars, one, mix, decay)) == bars.blended(
            blends_of(bars, two, mix, decay),
        ),
{
    assert forall|i: int|
        0 <= i < BAR_COUNT && bar_start(one.len(), i) < one.len() implies same_magnitudes(
        #[trigger] bar_samples(one, i),
        bar_samples(two, i),
    ) by {
        law_reordering_keeps_magnitudes(bar_samples(one, i), bar_samples(two, i));
    }
    law_bars_ignore_order_and_sign(bars, one, two, mix, decay);
}

/// A bar moves by its own samples alone: where only those of other bars differ, it and its mark
/// come out the same, whatever the arithmetic is.
pub proof fn law_bar_hears_its_own_samples(
    bars: Bars,
    one: Seq<Single>,
    two: Seq<Single>,
    i: int,
    mix: spec_fn(Single, Single) -> Single,
    decay: spec_fn(Single) -> Single,
)
    requires
        bars.wf(),
        0 <= i < BAR_COUNT,
        one.len() == two.len(),
        bar_samples(one, i) == bar_samples(two, i),
    ensures
        bar_level(one, i) == bar_level(two, i),
        bars.blended(blends_of(bars, one, mix, decay)).body[i] == bars.blended(
            blends_of(bars, two, mix, decay),
        ).body[i],
        bars.blended(blends_of(bars, one, mix, decay)).peak[i] == bars.blended(
            blends_of(bars, two, mix, decay),
        ).peak[i],
{
}

impl Bars {
    /// Every bar and mark is a number from 0 to 1.
    pub open spec fn clear(self) -> bool {
        &&& self.body.len() == BAR_COUNT
        &&& self.peak.len() == BAR_COUNT
        &&& forall|i: int| 0 <= i < BAR_COUNT ==> (#[trigger] self.body[i]).in_range()
        &&& forall|i: int| 0 <= i < BAR_COUNT ==> (#[trigger] self.peak[i]).in_range()
    }
}

/// Bars from 0 to 1 stay from 0 to 1, and none becomes a NaN, where no blend holds a NaN.
pub proof fn law_bars_stay_clear(bars: Bars, blends: Seq<Option<Blend>>)
    requires
        bars.clear(),
        blends.len() == BAR_COUNT,
        forall|i: int|
            0 <= i < BAR_COUNT && (#[trigger] blends[i]) is Some ==> !blends[i]->0.mixed.nan()
                && !blends[i]->0.decayed.nan(),
    ensures
        bars.blended(blends).clear(),
{
    let after = bars.blended(blends);
    assert forall|i: int| 0 <= i < BAR_COUNT implies (#[trigger] after.body[i]).in_range() by {
        assert(bars.body[i].in_range());
        assert(blends[i] is Some ==> !blends[i]->0.mixed.nan());
    }
    assert forall|i: int| 0 <= i < BAR_COUNT implies (#[trigger] after.peak[i]).in_range() by {
        assert(bars.peak[i].in_range());
        assert(blends[i] is Some ==> !blends[i]->0.mixed.nan() && !blends[i]->0.decayed.nan());
    }
}

/// Makes no NaN of a number from 0 to 1 and a level.
pub open spec fn mixes_cleanly(mix: spec_fn(Single, Single) -> Single) -> bool {
    forall|value: Single, level: Single|
        value.in_range() && !level.nan() && 0 <= level.rank() ==> !(#[trigger] mix(
            value,
            level,
        )).nan()
}

proof fn lemma_level_is_clean(samples: Seq<Single>, i: int)
    requires
        without_nan(samples),
        0 <= i < BAR_COUNT,
    ensures
        bar_start(samples.len(), i) < samples.len() ==> bar_level(samples, i) is Some,
        bar_level(samples, i) matches Some(level) ==> !level.nan() && 0 <= level.rank(),
{
    law_bars_follow_each_other(samples.len(), i);
    assert(bar_start(samples.len(), i) >= 0) by (nonlinear_arith)
        requires
            i >= 0,
            bar_start(samples.len(), i) == i * chunk_size(samples.len()),
            chunk_size(samples.len()) >= 0,
    ;
    if bar_start(samples.len(), i) < samples.len() {
        assert(without_nan(bar_samples(samples, i)));
        law_loudest_is_greatest(bar_samples(samples, i));
        assert(bar_level(samples, i) == Some(loudest(bar_samples(samples, i))));
    }
}

/// Samples without NaNs, infinite ones included, keep bars from 0 to 1 there and free of NaNs, for
/// any arithmetic that makes no NaN of a number from 0 to 1 and a level.
pub proof fn law_clean_samples_keep_bars_clear(
    bars: Bars,
    samples: Seq<Single>,
    mix: spec_fn(Single, Single) -> Single,
    decay: spec_fn(Single) -> Single,
)
    requires
        bars.clear(),
        without_nan(samples),
        mixes_cleanly(mix),
        forall|value: Single| value.in_range() ==> !(#[trigger] decay(value)).nan(),
    ensures
        bars.blended(blends_of(bars, samples, mix, decay)).clear(),
{
    let blends = blends_of(bars, samples, mix, decay);
    assert forall|i: int| 0 <= i < BAR_COUNT && (#[trigger] blends[i]) is Some implies
        !blends[i]->0.mixed.nan() && !blends[i]->0.decayed.nan() by {
        lemma_level_is_clean(samples, i);
        assert(bars.body[i].in_range());
        assert(bars.peak[i].in_range());
    }
    law_bars_stay_clear(bars, blends);
}

/// Never raises a number from 0 to 1, and keeps the order of such numbers.
pub open spec fn lowers(decay: spec_fn(Single) -> Single) -> bool {
    &&& forall|value: Single|
        value.in_range() ==> !(#[trigger] decay(value)).nan() && decay(value).rank()
            <= value.rank()
    &&& forall|a: Single, b: Single|
        a.in_range() && b.in_range() && a.rank() <= b.rank() ==> (#[trigger] decay(a)).rank() <= (
        #[trigger] decay(b)).rank()
}

/// A mark stands no higher than the higher of its old place and its bar, and no lower than one
/// step of decay below its bar.
pub proof fn law_mark_stays_near_bar(
    bars: Bars,
    blends: Seq<Option<Blend>>,
    decay: spec_fn(Single) -> Single,
    i: int,
)
    requires
        bars.clear(),
        blends.len() == BAR_COUNT,
        0 <= i < BAR_COUNT,
        blends[i] is Some,
        !blends[i]->0.mixed.nan(),
        blends[i]->0.decayed == decay(bars.peak[i]),
        lowers(decay),
    ensures
        ({
            let body = bars.blended(blends).body[i];
            let peak = bars.blended(blends).peak[i];
            &&& peak.rank() <= bars.peak[i].rank() || peak.rank() <= body.rank()
            &&& decay(body).rank() <= peak.rank()
        }),
{
    let body = bars.blended(blends).body[i];
    let peak = bars.peak[i];
    assert(peak.in_range());
    assert(body.in_range());
    assert(decay(body).rank() <= body.rank());
    assert(decay(peak).rank() <= peak.rank());
    if body.rank() <= peak.rank() {
        assert(decay(body).rank() <= decay(peak).rank());
    }
}

/// With at least as many samples as bars, and no NaN among them, every mark stands no higher than
/// the higher of its old place and its bar, and no lower than one step of decay below its bar. This
/// holds for any arithmetic that makes no NaN, and any decay that lowers.
pub proof fn law_marks_stay_near_bars(
    bars: Bars,
    samples: Seq<Single>,
    mix: spec_fn(Single, Single) -> Single,
    decay: spec_fn(Single) -> Single,
    i: int,
)
    requires
        bars.clear(),
        samples.len() >= BAR_COUNT,
        without_nan(samples),
        mixes_cleanly(mix),
        lowers(decay),
        0 <= i < BAR_COUNT,
    ensures
        ({
            let after = bars.blended(blends_of(bars, samples, mix, decay));
            &&& after.peak[i].rank() <= bars.peak[i].rank() || after.peak[i].rank()
                <= after.body[i].rank()
            &&& decay(after.body[i]).rank() <= after.peak[i].rank()
        }),
{
    let blends = blends_of(bars, samples, mix, decay);
    law_bars_share_samples(samples.len(), i);
    law_bars_follow_each_other(samples.len(), i);
    lemma_level_is_clean(samples, i);
    assert(bars.body[i].in_range());
    law_mark_stays_near_bar(bars, blends, decay, i);
}

/// A bar with samples stands at its mixed value where that is from 0 to 1; at 1 where it is more,
/// and at 0 where it is less. A NaN and a negative zero are taken as they are.
pub proof fn law_bar_takes_its_mixed_value(
    bars: Bars,
    blends: Seq<Option<Blend>>,
    blend: Blend,
    i: int,
)
    requires
        bars.body.len() == 32,
        bars.peak.len() == 32,
        blends.len() == 32,
        0 <= i < 32,
        blends[i] == Some(blend),
    ensures
        ({
            let mixed = blend.mixed.bits;
            let body = bars.blended(blends).body[i].bits;
            &&& finite(mixed) && 0 <= value(mixed) <= value(0x3f80_0000) ==> body == mixed
            &&& finite(mixed) && value(mixed) < 0 ==> body == 0
            &&& finite(mixed) && value(mixed) > value(0x3f80_0000) ==> body == 0x3f80_0000
            &&& mixed == 0x7f80_0000 ==> body == 0x3f80_0000
            &&& mixed == 0xff80_0000 ==> body == 0
            &&& 0x7f80_0000 < mixed < 0x8000_0000 || 0xff80_0000 < mixed ==> body == mixed
        }),
{
    law_held_between_0_and_1(blend.mixed);
}

/// A mark that stands below the mixed value of its bar stands with the bar after the step.
pub proof fn law_mark_is_taken_along(
    bars: Bars,
    blends: Seq<Option<Blend>>,
    blend: Blend,
    i: int,
)
    requires
        bars.body.len() == 32,
        bars.peak.len() == 32,
        blends.len() == 32,
        0 <= i < 32,
        blends[i] == Some(blend),
        finite(bars.peak[i].bits),
        blend.mixed.bits == 0x7f80_0000 || finite(blend.mixed.bits) && value(bars.peak[i].bits)
            < value(blend.mixed.bits),
    ensures
        bars.blended(blends).peak[i] == bars.blended(blends).body[i],
        finite(blend.mixed.bits) && 0 <= value(blend.mixed.bits) <= value(0x3f80_0000)
            ==> bars.blended(blends).peak[i] == blend.mixed,
{
    law_held_between_0_and_1(blend.mixed);
    if finite(blend.mixed.bits) {
        law_less_is_smaller(bars.peak[i], blend.mixed);
    }
}

/// A mark that does not stand below the mixed value of its bar takes its decayed value, held
/// between 0 and 1. So does one where either is a NaN.
pub proof fn law_mark_decays_above_its_bar(
    bars: Bars,
    blends: Seq<Option<Blend>>,
    blend: Blend,
    i: int,
)
    requires
        bars.body.len() == 32,
        bars.peak.len() == 32,
        blends.len() == 32,
        0 <= i < 32,
        blends[i] == Some(blend),
        ({
            let mark = bars.peak[i].bits;
            let mixed = blend.mixed.bits;
            ||| finite(mark) && finite(mixed) && value(mark) >= value(mixed)
            ||| mark == 0x7f80_0000
            ||| mixed == 0xff80_0000
            ||| 0x7f80_0000 < mark < 0x8000_0000
            ||| 0xff80_0000 < mark
            ||| 0x7f80_0000 < mixed < 0x8000_0000
            ||| 0xff80_0000 < mixed
        }),
    ensures
        ({
            let decayed = blend.decayed.bits;
            let peak = bars.blended(blends).peak[i].bits;
            &&& finite(decayed) && 0 <= value(decayed) <= value(0x3f80_0000) ==> peak == decayed
            &&& finite(decayed) && value(decayed) < 0 ==> peak == 0
            &&& finite(decayed) && value(decayed) > value(0x3f80_0000) ==> peak == 0x3f80_0000
            &&& decayed == 0x7f80_0000 ==> peak == 0x3f80_0000
            &&& decayed == 0xff80_0000 ==> peak == 0
            &&& 0x7f80_0000 < decayed < 0x8000_0000 || 0xff80_0000 < decayed ==> peak == decayed
        }),
{
    law_held_between_0_and_1(blend.decayed);
    if finite(bars.peak[i].bits) && finite(blend.mixed.bits) {
        law_less_is_smaller(bars.peak[i], blend.mixed);
    }
}

/// A bar without samples stays where it is, and so does its mark. No step adds or removes a bar.
pub proof fn law_bar_without_samples_stays(bars: Bars, blends: Seq<Option<Blend>>, i: int)
    requires
        bars.body.len() == 32,
        bars.peak.len() == 32,
        blends.len() == 32,
        0 <= i < 32,
    ensures
        bars.blended(blends).body.len() == 32,
        bars.blended(blends).peak.len() == 32,
        blends[i] is None ==> bars.blended(blends).body[i] == bars.body[i],
        blends[i] is None ==> bars.blended(blends).peak[i] == bars.peak[i],
{
}

/// What a bar and its mark become depends on nothing but that bar, its mark and its own blend.
pub proof fn law_bars_move_apart(
    one: Bars,
    two: Bars,
    first: Seq<Option<Blend>>,
    second: Seq<Option<Blend>>,
    i: int,
    j: int,
)
    requires
        one.body.len() == 32,
        one.peak.len() == 32,
        two.body.len() == 32,
        two.peak.len() == 32,
        first.len() == 32,
        second.len() == 32,
        0 <= i < 32,
        0 <= j < 32,
        one.body[i] == two.body[j],
        one.peak[i] == two.peak[j],
        first[i] == second[j],
    ensures
        one.blended(first).body[i] == two.blended(second).body[j],
        one.blended(first).peak[i] == two.blended(second).peak[j],
{
}

/// Flat bars are as many as there are bars, and each of them and of their marks is at zero.
pub proof fn law_flat_bars_are_zero(i: int)
    requires
        0 <= i < 32,
    ensures
        Bars::flat().body.len() == 32,
        Bars::flat().peak.len() == 32,
        Bars::flat().body[i].bits == 0,
        Bars::flat().peak[i].bits == 0,
{
}

/// One more sample replaces the level by its own magnitude, but where both are numbers and its own
/// is the smaller.
pub proof fn law_loudest_takes_each_sample(samples: Seq<Single>, sample: Single)
    requires
        samples.len() > 0,
    ensures
        loudest(seq![sample]).bits == sample.bits % 0x8000_0000,
        ({
            let level = sample.bits % 0x8000_0000;
            let best = loudest(samples).bits;
            loudest(samples.push(sample)).bits == if level < best && best <= 0x7f80_0000 {
                best
            } else {
                level
            }
        }),
        loudest(samples).bits < 0x8000_0000,
    decreases samples.len(),
{
    assert(samples.push(sample).drop_last() =~= samples);
    assert(samples.push(sample).last() == sample);
    if samples.len() > 1 {
        law_loudest_takes_each_sample(samples.drop_last(), samples.last());
        assert(samples.drop_last().push(samples.last()) =~= samples);
    }
}

/// With at least as many samples as bars, bar `i` hears the samples from `i` to `i + 1` times the
/// share of a bar, which is the number of samples divided by the number of bars. With fewer, bar
/// `i` hears sample `i` alone, and the bars behind the last sample hear none.
pub proof fn law_bar_hears_its_share(samples: Seq<Single>, i: int)
    requires
        0 <= i < 32,
    ensures
        samples.len() >= 32 ==> 0 <= i * (samples.len() / 32) < (i + 1) * (samples.len() / 32)
            <= samples.len() && bar_level(samples, i) == Some(
            loudest(samples.subrange(i * (samples.len() / 32), (i + 1) * (samples.len() / 32))),
        ),
        i < samples.len() < 32 ==> bar_level(samples, i) == Some(
            Single { bits: (samples[i].bits % 0x8000_0000) as u32 },
        ),
        samples.len() <= i ==> bar_level(samples, i) is None,
{
    let len = samples.len();
    let share = (len / 32) as int;
    assert(0 <= i * share && i * share + share == (i + 1) * share && (i + 1) * share <= 32 * share)
        by (nonlinear_arith)
        requires
            0 <= i < 32,
            0 <= share,
    ;
    if len >= 32 {
        law_bars_share_samples(len, i);
        assert(chunk_size(len) == share);
    } else {
        assert(chunk_size(len) == 1);
        assert(bar_start(len, i) == i);
        if i < len {
            let own = samples.subrange(bar_start(len, i), bar_end(len, i));
            assert(own =~= seq![samples[i]]);
        }
    }
}

/// With at least as many samples as bars and no NaN among them, the level of a bar is as great as
/// the magnitude of each sample of its share, and is the magnitude of one of them.
pub proof fn law_bar_level_is_greatest(samples: Seq<Single>, i: int)
    requires
        samples.len() >= 32,
        0 <= i < 32,
        forall|k: int|
            0 <= k < samples.len() ==> (#[trigger] samples[k]).bits % 0x8000_0000 <= 0x7f80_0000,
    ensures
        bar_level(samples, i) is Some,
        forall|k: int|
            i * (samples.len() / 32) <= k < (i + 1) * (samples.len() / 32) ==> (
            #[trigger] samples[k]).bits % 0x8000_0000 <= bar_level(samples, i)->0.bits,
        exists|k: int|
            i * (samples.len() / 32) <= k < (i + 1) * (samples.len() / 32) && (
            #[trigger] samples[k]).bits % 0x8000_0000 == bar_level(samples, i)->0.bits,
{
    let start = i * (samples.len() / 32);
    let end = (i + 1) * (samples.len() / 32);
    let own = samples.subrange(start, end);
    law_bar_hears_its_share(samples, i);
    assert forall|k: int| 0 <= k < own.len() implies !(#[trigger] own[k]).nan() by {
        assert(own[k] == samples[start + k]);
    }
    law_loudest_is_greatest(own);
    assert forall|k: int| start <= k < end implies (#[trigger] samples[k]).bits % 0x8000_0000
        <= bar_level(samples, i)->0.bits by {
        assert(own[k - start] == samples[k]);
        assert(own[k - start].magnitude() <= loudest(own).rank());
    }
    let k = choose|k: int|
        0 <= k < own.len() && loudest(own) == (#[trigger] own[k]).magnitude_of();
    assert(samples[start + k] == own[k]);
}

/// Red is a third of the intensity, and never less than 40; green is the intensity, and never less
/// than 80; blue is what a third of the intensity leaves of 255.
pub proof fn law_colour_of_intensity(intensity: u8)
    ensures
        colour(intensity).0 >= 40,
        colour(intensity).0 >= intensity as int / 3,
        colour(intensity).0 == 40 || colour(intensity).0 == intensity as int / 3,
        colour(intensity).1 >= 80,
        colour(intensity).1 >= intensity,
        colour(intensity).1 == 80 || colour(intensity).1 == intensity,
        colour(intensity).2 + intensity as int / 3 == 255,
{
}

/// The louder, the more red and green and the less blue.
pub proof fn law_colour_follows_intensity(quiet: u8, loud: u8)
    requires
        quiet <= loud,
    ensures
        colour(quiet).0 <= colour(loud).0,
        colour(quiet).1 <= colour(loud).1,
        colour(quiet).2 >= colour(loud).2,
{
}

} // verus!
