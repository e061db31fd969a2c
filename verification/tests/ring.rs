use music_player::ring::{RingBuffer, RING_SIZE};
use music_player::single::Single;

fn single(value: f32) -> Single {
    Single { bits: value.to_bits() }
}

fn contents(ring: &RingBuffer) -> Vec<f32> {
    ring.snapshot().iter().map(|s| f32::from_bits(s.bits)).collect()
}

#[test]
fn a_new_ring_is_silent() {
    let ring = RingBuffer::new(4);
    assert_eq!(ring.len(), 4);
    assert_eq!(contents(&ring), vec![0.0, 0.0, 0.0, 0.0]);
}

#[test]
fn an_empty_ring_has_an_empty_snapshot() {
    let ring = RingBuffer::new(0);
    assert_eq!(ring.len(), 0);
    assert!(ring.snapshot().is_empty());
}

#[test]
fn the_latest_sample_comes_last() {
    let mut ring = RingBuffer::new(3);
    ring.push(single(0.1));
    assert_eq!(contents(&ring), vec![0.0, 0.0, 0.1]);
    ring.push(single(0.2));
    ring.push(single(0.3));
    ring.push(single(0.4));
    assert_eq!(contents(&ring), vec![0.2, 0.3, 0.4]);
    assert_eq!(ring.len(), 3);
}

#[test]
fn the_players_ring_keeps_the_latest_samples() {
    let mut ring = RingBuffer::new(RING_SIZE);
    for i in 0..5_000 {
        ring.push(single(i as f32));
    }
    let want: Vec<f32> = (5_000 - 1024..5_000).map(|i| i as f32).collect();
    assert_eq!(contents(&ring), want);
}

#[test]
fn a_tap_passes_on_and_keeps() {
    let mut ring = RingBuffer::new(2);
    assert_eq!(ring.tap(Some(single(-0.5))), Some(single(-0.5)));
    assert_eq!(contents(&ring), vec![0.0, -0.5]);
    assert_eq!(ring.tap(None), None);
    assert_eq!(contents(&ring), vec![0.0, -0.5]);
}
