use music_player::single::Single;
use music_player::visualizer::{
    bar_colour, levels, shows_body, shows_peak, BarInput, Blend, Rgb, Visualizer, BAR_COUNT,
    GLOW_ALPHA,
};

fn single(value: f32) -> Single {
    Single { bits: value.to_bits() }
}

fn float(value: Single) -> f32 {
    f32::from_bits(value.bits)
}

fn reference_levels(samples: &[f32]) -> Vec<Option<f32>> {
    let chunk = (samples.len() / 32).max(1);
    (0..32)
        .map(|i| {
            let start = i * chunk;
            let end = std::cmp::min(start + chunk, samples.len());
            if start >= end {
                return None;
            }
            samples[start..end]
                .iter()
                .map(|x| x.abs())
                .max_by(|a, b| a.partial_cmp(b).unwrap_or(std::cmp::Ordering::Equal))
        })
        .collect()
}

fn check_levels(samples: Vec<f32>) {
    let input: Vec<Single> = samples.iter().map(|s| single(*s)).collect();
    let got: Vec<Option<u32>> = levels(&input).iter().map(|l| l.map(|s| s.bits)).collect();
    let want: Vec<Option<u32>> = reference_levels(&samples)
        .iter()
        .map(|l| l.map(|s| s.to_bits()))
        .collect();
    assert_eq!(got, want);
}

#[test]
fn no_samples_give_no_levels() {
    assert_eq!(levels(&Vec::new()), vec![None; BAR_COUNT]);
}

#[test]
fn few_samples_have_a_bar_each() {
    let got = levels(&vec![single(-0.5), single(0.25)]);
    assert_eq!(got.len(), BAR_COUNT);
    assert_eq!(got[0], Some(single(0.5)));
    assert_eq!(got[1], Some(single(0.25)));
    assert_eq!(got[2], None);
    assert_eq!(got[31], None);
}

#[test]
fn the_loudest_sample_of_a_bar_counts() {
    let mut samples = vec![single(0.0); 1024];
    samples[32 * 5 + 31] = single(-0.75);
    samples[32 * 5 + 3] = single(0.5);
    let got = levels(&samples);
    assert_eq!(got[5], Some(single(0.75)));
    assert_eq!(got[4], Some(single(0.0)));
    assert_eq!(got[6], Some(single(0.0)));
}

#[test]
fn samples_over_are_left_out() {
    let mut samples = vec![single(0.0); 32 * 2 + 5];
    samples[64] = single(1.0);
    assert_eq!(levels(&samples)[31], Some(single(0.0)));
}

#[test]
fn levels_agree_with_a_plain_reckoning() {
    for len in [0usize, 1, 31, 32, 33, 63, 64, 100, 1000, 1024, 1025] {
        check_levels((0..len).map(|i| ((i * 37 % 101) as f32 - 50.0) / 50.0).collect());
    }
    let mut odd: Vec<f32> = (0..128).map(|i| i as f32 * -0.01).collect();
    odd[1] = f32::NAN;
    odd[6] = f32::INFINITY;
    odd[11] = f32::NAN;
    odd[13] = -0.0;
    check_levels(odd);
}

#[test]
fn new_bars_are_flat() {
    let bars = Visualizer::new();
    for i in 0..BAR_COUNT {
        assert_eq!(float(bars.body(i)), 0.0);
        assert_eq!(float(bars.peak(i)), 0.0);
    }
}

fn step(bars: &mut Visualizer, i: usize, mixed: f32, decayed: f32) -> (f32, f32) {
    let mut blends = vec![None; BAR_COUNT];
    blends[i] = Some(Blend { mixed: single(mixed), decayed: single(decayed) });
    bars.update(&blends);
    (float(bars.body(i)), float(bars.peak(i)))
}

#[test]
fn a_mark_rises_with_its_bar_and_then_decays() {
    let mut bars = Visualizer::new();
    assert_eq!(step(&mut bars, 3, 0.5, 0.0), (0.5, 0.5));
    assert_eq!(step(&mut bars, 3, 0.25, 0.475), (0.25, 0.475));
    assert_eq!(step(&mut bars, 3, 0.475, 0.45125), (0.475, 0.45125));
    assert_eq!(float(bars.body(2)), 0.0);
    assert_eq!(float(bars.peak(4)), 0.0);
}

#[test]
fn bars_stay_from_zero_to_one() {
    let mut bars = Visualizer::new();
    assert_eq!(step(&mut bars, 0, 2.5, 0.0), (1.0, 1.0));
    assert_eq!(step(&mut bars, 0, -1.0, 0.95), (0.0, 0.95));
    let (body, peak) = step(&mut bars, 0, f32::NAN, 0.9);
    assert!(body.is_nan());
    assert_eq!(peak, 0.9);
}

#[test]
fn a_reset_flattens() {
    let mut bars = Visualizer::new();
    step(&mut bars, 7, 0.5, 0.0);
    bars.reset();
    assert_eq!(float(bars.body(7)), 0.0);
    assert_eq!(float(bars.peak(7)), 0.0);
}

#[test]
fn colours_follow_the_intensity() {
    assert_eq!(bar_colour(0), Rgb { r: 40, g: 80, b: 255 });
    assert_eq!(bar_colour(120), Rgb { r: 40, g: 120, b: 215 });
    assert_eq!(bar_colour(255), Rgb { r: 85, g: 255, b: 170 });
    for i in 0..=255u8 {
        assert_eq!(
            bar_colour(i),
            Rgb { r: (i / 3).max(40), g: i.max(80), b: 255 - i / 3 }
        );
    }
    assert_eq!(GLOW_ALPHA, 40);
}

#[test]
fn low_bars_and_marks_are_not_drawn() {
    assert!(!shows_body(single(0.0)));
    assert!(!shows_body(single(-0.0)));
    assert!(!shows_body(single(f32::NAN)));
    assert!(shows_body(single(0.01)));
    assert!(!shows_peak(single(0.0), single(2.0)));
    assert!(shows_peak(single(0.0), single(2.1)));
    assert!(!shows_peak(single(5.0), single(5.0)));
    assert!(!shows_peak(single(f32::NAN), single(5.0)));
    assert!(shows_peak(single(5.0), single(5.5)));
}

#[test]
fn order_and_sign_within_a_bar_do_not_matter() {
    let one: Vec<Single> = (0..1024).map(|i| single((i * 37 % 101) as f32 - 50.0)).collect();
    let mut two = Vec::new();
    for chunk in one.chunks(32) {
        for sample in chunk.iter().rev() {
            two.push(single(-float(*sample)));
        }
    }
    assert_ne!(one, two);
    assert_eq!(levels(&one), levels(&two));
}

#[test]
fn a_bar_hears_its_own_samples_only() {
    let one: Vec<Single> = (0..1024).map(|i| single(i as f32 / 2048.0)).collect();
    let mut two = one.clone();
    two[32 * 9 + 4] = single(-3.0);
    let (a, b) = (levels(&one), levels(&two));
    for i in 0..BAR_COUNT {
        assert_eq!(a[i] == b[i], i != 9);
    }
    assert_eq!(b[9], Some(single(3.0)));
}

#[test]
fn clean_samples_keep_the_bars_clear() {
    let mut samples: Vec<Single> = (0..1024).map(|i| single(i as f32 - 500.0)).collect();
    samples[100] = single(f32::INFINITY);
    samples[200] = single(f32::NEG_INFINITY);
    let mut bars = Visualizer::new();
    for _ in 0..50 {
        let heard = levels(&samples);
        let blends: Vec<Option<Blend>> = (0..BAR_COUNT)
            .map(|i| {
                heard[i].map(|level| Blend {
                    mixed: single(float(bars.body(i)) * 0.7 + float(level) * 3.0 * 0.3),
                    decayed: single(float(bars.peak(i)) * 0.95),
                })
            })
            .collect();
        bars.update(&blends);
        for i in 0..BAR_COUNT {
            assert!((0.0..=1.0).contains(&float(bars.body(i))));
            assert!((0.0..=1.0).contains(&float(bars.peak(i))));
        }
    }
}

#[test]
fn inputs_pair_each_bar_with_its_level() {
    let mut bars = Visualizer::new();
    step(&mut bars, 1, 0.5, 0.0);
    step(&mut bars, 1, 0.25, 0.475);
    let inputs = bars.inputs(&vec![single(-0.125), single(0.75)]);
    assert_eq!(inputs.len(), BAR_COUNT);
    assert_eq!(
        inputs[0],
        Some(BarInput { value: single(0.0), mark: single(0.0), level: single(0.125) })
    );
    assert_eq!(
        inputs[1],
        Some(BarInput { value: single(0.25), mark: single(0.475), level: single(0.75) })
    );
    assert_eq!(inputs[2], None);
}

#[test]
fn marks_stay_near_their_bars() {
    let mut bars = Visualizer::new();
    for round in 0..200u32 {
        let samples: Vec<Single> = (0..1024u32)
            .map(|i| single(((i * 37 + round * round * 11) % 101) as f32 / 300.0))
            .collect();
        let before: Vec<f32> = (0..BAR_COUNT).map(|i| float(bars.peak(i))).collect();
        let blends: Vec<Option<Blend>> = bars
            .inputs(&samples)
            .into_iter()
            .map(|input| {
                input.map(|input| Blend {
                    mixed: single(float(input.value) * 0.7 + float(input.level) * 3.0 * 0.3),
                    decayed: single(float(input.mark) * 0.95),
                })
            })
            .collect();
        bars.update(&blends);
        for i in 0..BAR_COUNT {
            let (body, peak) = (float(bars.body(i)), float(bars.peak(i)));
            assert!(peak <= before[i].max(body));
            assert!(body * 0.95 <= peak);
        }
    }
}
