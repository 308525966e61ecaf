use qrng::{Clock, QRNG};

/// A clock that plays back fixed samples and counts how many were read.
struct Replay {
    samples: Vec<u32>,
    reads: usize,
}

impl Replay {
    fn new(samples: &[u32]) -> Replay {
        Replay { samples: samples.to_vec(), reads: 0 }
    }
}

impl Clock for Replay {
    fn now_subsec_ns(&mut self) -> u32 {
        let ns = self.samples[self.reads];
        self.reads += 1;
        ns
    }
}

fn mix(sum: u32) -> u32 {
    sum.wrapping_mul(1210758371) >> 31
}

#[test]
fn new_starts_zeroed() {
    let q = QRNG::new();
    assert_eq!(q.last_ns(), 0);
    assert_eq!(q.sum(), 0);
}

#[test]
fn bits_only_where_the_sample_changes() {
    let mut q = QRNG::new();
    let samples = [100u32, 100, 101, 105, 105, 106, 110, 111];
    let out: Vec<Option<u32>> = samples.iter().map(|&ns| q.absorb(ns)).collect();
    assert_eq!(
        out,
        vec![Some(0), None, Some(1), Some(0), None, Some(1), Some(1), Some(0)]
    );
    let emitted: Vec<usize> = (0..out.len()).filter(|&i| out[i].is_some()).collect();
    assert_eq!(emitted, vec![0, 2, 3, 5, 6, 7]);
    assert_eq!(q.last_ns(), 111);
    assert_eq!(q.sum(), 838);
}

#[test]
fn repeated_sample_yields_no_second_bit() {
    let mut q = QRNG::new();
    assert!(q.absorb(5).is_some());
    assert_eq!(q.absorb(5), None);
    assert_eq!(q.absorb(5), None);
    assert_eq!(q.last_ns(), 5);
    assert_eq!(q.sum(), 15);
}

#[test]
fn accumulator_wraps() {
    let mut q = QRNG::new();
    assert_eq!(q.absorb(0xFFFF_FFF0), Some(0));
    assert_eq!(q.absorb(0x20), Some(1));
    assert_eq!(q.sum(), 0x10);
    assert_eq!(mix(0x10), 1);
    assert_eq!(q.last_ns(), 0x20);
}

#[test]
fn mixing_takes_top_bit_of_product() {
    let mut q = QRNG::new();
    assert_eq!(q.absorb(1), Some(0));
    assert_eq!(q.absorb(2), Some(1));
    assert_eq!(q.sum(), 3);
    assert_eq!(mix(3), 1);
}

#[test]
fn bit_waits_for_a_change() {
    let mut q = QRNG::new();
    let mut clock = Replay::new(&[0, 0, 0, 7, 8]);
    let b = q.bit_with(&mut clock);
    assert_eq!(clock.reads, 4);
    assert_eq!(q.last_ns(), 7);
    assert_eq!(q.sum(), 7);
    assert_eq!(b, mix(7));
}

#[test]
fn replay_is_deterministic() {
    let samples = [7u32, 7, 7, 9, 9, 3, 3, 3, 3, 12, 4, 4, 8, 8, 8, 1, 5, 5, 5, 5];
    let mut a = QRNG::new();
    let mut b = QRNG::new();
    let mut ca = Replay::new(&samples);
    let mut cb = Replay::new(&samples);
    let va = a.uint_with(&mut ca, 8);
    let vb = b.uint_with(&mut cb, 8);
    assert_eq!(va, vb);
    assert_eq!(ca.reads, cb.reads);
    assert_eq!((a.last_ns(), a.sum()), (b.last_ns(), b.sum()));
}

#[test]
fn eight_bits_take_eight_extractions() {
    let samples = [7u32, 7, 7, 9, 9, 3, 3, 3, 3, 12, 4, 4, 8, 8, 8, 1, 5, 5, 5, 5];
    let mut q = QRNG::new();
    let mut clock = Replay::new(&samples);
    let v = q.uint_with(&mut clock, 8);
    assert_eq!(clock.reads, 17);
    assert_eq!(v, 29);
    assert_eq!(q.last_ns(), 5);
    assert_eq!(q.sum(), 101);
}

#[test]
fn bits_assemble_least_significant_first() {
    let samples: Vec<u32> = (1..=8).collect();
    let mut q = QRNG::new();
    let mut clock = Replay::new(&samples);
    let v = q.uint_with(&mut clock, 8);
    assert_eq!(clock.reads, 8);
    let mut twin = QRNG::new();
    let bits: Vec<u32> = samples.iter().map(|&ns| twin.absorb(ns).unwrap()).collect();
    assert_eq!(bits, vec![0, 1, 1, 1, 0, 1, 1, 0]);
    let expected: u128 = (0..8).map(|i| (bits[i] as u128) << i).sum();
    assert_eq!(v, expected);
    assert_eq!(v, 110);
}

#[test]
fn sixteen_bits_and_their_signed_reading() {
    let samples: Vec<u32> = (1..=16).collect();
    let mut q = QRNG::new();
    let mut clock = Replay::new(&samples);
    let v = q.uint_with(&mut clock, 16);
    assert_eq!(v, 32622);
    assert_eq!(v as u16 as i16, 32622);
    assert_eq!(q.last_ns(), 16);
    assert_eq!(q.sum(), 136);
}

#[test]
fn zero_width_reads_nothing() {
    let mut q = QRNG::new();
    let mut clock = Replay::new(&[]);
    assert_eq!(q.uint_with(&mut clock, 0), 0);
    assert_eq!(clock.reads, 0);
    assert_eq!(q.sum(), 0);
}

#[test]
fn draws_stay_within_width() {
    for width in [8u32, 16, 32, 64] {
        let samples: Vec<u32> = (1..=width).map(|i| i.wrapping_mul(2654435761)).collect();
        let mut q = QRNG::new();
        let mut clock = Replay::new(&samples);
        let v = q.uint_with(&mut clock, width);
        assert!(v < (1u128 << width));
        assert_eq!(clock.reads, width as usize);
    }
}

#[test]
fn boolean_matches_the_bit() {
    let samples = [3u32, 3, 9];
    let mut q = QRNG::new();
    let mut clock = Replay::new(&samples);
    let r = q.bool_with(&mut clock);
    let mut twin = QRNG::new();
    let b = twin.absorb(3).unwrap();
    assert_eq!(r, b != 0);
    assert_eq!(r, true);
    let r2 = q.bool_with(&mut clock);
    assert_eq!(r2, mix(15) != 0);
    assert_eq!(r2, false);
    assert_eq!(clock.reads, 3);
}

#[test]
fn host_clock_accessors_return() {
    let mut q = QRNG::new();
    let _ = q.bool();
    let _ = q.u8();
    let _ = q.i8();
    let _ = q.u16();
    let _ = q.i16();
    let _ = q.u32();
    let _ = q.i32();
    let _ = q.u64();
    let _ = q.i64();
    let _ = q.u128();
    let _ = q.i128();
    assert!(q.last_ns() < 1_000_000_000);
}
