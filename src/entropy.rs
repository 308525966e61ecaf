//! The entropy core: an accumulator of clock samples and the last sample seen.
use crate::clock::{Clock, SystemClock};
use crate::bits::{lemma_pow2_128, lemma_set_bit};
use crate::model::{
    absorb_all, after, bits_of, draws, draws_bit, emits, extractions, is_extraction, lemma_after_push,
    lemma_bits_push, lemma_extractions_push, lemma_value_push, mix, signed_of, step, value_of, CoreState, MIX,
    POLL_LIMIT,
};
use vstd::arithmetic::power2::{lemma2_to64, lemma2_to64_rest, pow2};
use vstd::prelude::*;

verus! {

/// An entropy source fed by the jitter of a clock.
pub struct QRNG {
    last_ns: u32,
    sum: u32,
}

impl View for QRNG {
    type V = CoreState;

    closed spec fn view(&self) -> CoreState {
        CoreState { last_ns: self.last_ns, sum: self.sum }
    }
}

impl QRNG {
    /// A core with no sample seen and an empty accumulator.
    pub fn new() -> (r: QRNG)
        ensures
            r@ == crate::model::initial(),
    {
        QRNG { last_ns: 0, sum: 0 }
    }

    /// The most recent clock sample.
    pub fn last_ns(&self) -> (r: u32)
        ensures
            r == self@.last_ns,
    {
        self.last_ns
    }

    /// The wrapping sum of every clock sample read so far.
    pub fn sum(&self) -> (r: u32)
        ensures
            r == self@.sum,
    {
        self.sum
    }

    /// The bit that the accumulator yields now.
    fn mixed_bit(&self) -> (r: u32)
        ensures
            r == mix(self@.sum),
            r <= 1,
    {
        let p = self.sum.wrapping_mul(MIX);
        let r = p >> 31u32;
        assert(r == p / 0x8000_0000) by (bit_vector)
            requires
                r == p >> 31u32,
        ;
        r
    }

    /// Reads one clock sample: adds it to the accumulator, and yields a bit when
    /// it differs from the last sample.
    pub fn absorb(&mut self, ns: u32) -> (r: Option<u32>)
        ensures
            final(self)@ == step(old(self)@, ns),
            r == (if emits(old(self)@, ns) {
                Some(mix(final(self)@.sum))
            } else {
                None::<u32>
            }),
    {
        self.sum = self.sum.wrapping_add(ns);
        if ns != self.last_ns {
            self.last_ns = ns;
            Some(self.mixed_bit())
        } else {
            None
        }
    }

    /// Polls `clock` until a sample differs from the last one, and yields the
    /// bit of the accumulator then. A clock that stands still for `POLL_LIMIT`
    /// reads ends the wait too.
    pub fn bit_with<C: Clock>(&mut self, clock: &mut C) -> (r: u32)
        ensures
            draws_bit(old(self)@, final(self)@, r),
            r <= 1,
    {
        let ghost start = self@;
        let ghost mut samples: Seq<u32> = Seq::empty();
        let mut polls: u64 = 0;
        loop
            invariant
                start == old(self)@,
                polls == samples.len(),
                polls < POLL_LIMIT,
                self@ == absorb_all(start, samples),
                self@.last_ns == start.last_ns,
                forall|i: int| 0 <= i < samples.len() ==> #[trigger] samples[i] == start.last_ns,
            decreases POLL_LIMIT - polls,
        {
            let ns = clock.now_subsec_ns();
            let ghost before = samples;
            proof {
                samples = samples.push(ns);
                assert(samples.drop_last() =~= before);
                assert(samples.last() == ns);
                assert(absorb_all(start, samples) == step(absorb_all(start, before), ns));
            }
            polls = polls + 1;
            if let Some(b) = self.absorb(ns) {
                assert(is_extraction(start, samples) && self@ == absorb_all(start, samples));
                return b;
            }
            assert(samples[samples.len() - 1] == start.last_ns);
            if polls == POLL_LIMIT {
                assert(is_extraction(start, samples) && self@ == absorb_all(start, samples));
                return self.mixed_bit();
            }
        }
    }

    /// Draws `width` bits from `clock`, one extraction each, and assembles them
    /// least significant first.
    pub fn uint_with<C: Clock>(&mut self, clock: &mut C, width: u32) -> (r: u128)
        requires
            width <= 128,
        ensures
            draws(old(self)@, width as nat, final(self)@, r as nat),
            (r as nat) < pow2(width as nat),
    {
        let ghost start = self@;
        let ghost mut groups: Seq<Seq<u32>> = Seq::empty();
        let mut value: u128 = 0;
        let mut i: u32 = 0;
        proof {
            lemma2_to64();
            lemma2_to64_rest();
            assert(groups.take(0) =~= groups);
            assert(bits_of(start, groups) =~= Seq::<u32>::empty());
        }
        while i < width
            invariant
                start == old(self)@,
                i <= width <= 128,
                groups.len() == i,
                extractions(start, groups),
                self@ == after(start, groups),
                value as nat == value_of(bits_of(start, groups)),
                (value as nat) < pow2(i as nat),
            decreases width - i,
        {
            let ghost prev = self@;
            let b = self.bit_with(clock);
            let ghost g = choose|g: Seq<u32>|
                is_extraction(prev, g) && self@ == absorb_all(prev, g) && b == mix(self@.sum);
            proof {
                lemma_after_push(start, groups, g);
                lemma_extractions_push(start, groups, g);
                lemma_bits_push(start, groups, g);
                lemma_value_push(bits_of(start, groups), b);
                lemma_set_bit(value, b as u128, i);
                groups = groups.push(g);
            }
            value = value | ((b as u128) << i);
            i = i + 1;
        }
        assert(extractions(start, groups) && groups.len() == width as nat && self@ == after(
            start,
            groups,
        ) && value as nat == value_of(bits_of(start, groups)));
        value
    }

    /// One bit from `clock`, as a boolean.
    pub fn bool_with<C: Clock>(&mut self, clock: &mut C) -> (r: bool)
        ensures
            exists|b: u32| draws_bit(old(self)@, final(self)@, b) && r == (b != 0),
    {
        let b = self.bit_with(clock);
        b != 0
    }

    /// One bit from the host's clock, as a boolean.
    pub fn bool(&mut self) -> (r: bool)
        ensures
            exists|b: u32| draws_bit(old(self)@, final(self)@, b) && r == (b != 0),
    {
        let mut clock = SystemClock::new();
        self.bool_with(&mut clock)
    }

    /// 8 bits from the host's clock, least significant first.
    pub fn u8(&mut self) -> (r: u8)
        ensures
            draws(old(self)@, 8, final(self)@, r as nat),
    {
        let mut clock = SystemClock::new();
        let v = self.uint_with(&mut clock, 8);
        proof {
            lemma2_to64();
            lemma2_to64_rest();
        }
        v as u8
    }

    /// 8 bits from the host's clock, read as a two's-complement number.
    pub fn i8(&mut self) -> (r: i8)
        ensures
            exists|v: nat| draws(old(self)@, 8, final(self)@, v) && r as int == signed_of(v, 8),
    {
        let v = self.u8();
        proof {
            lemma2_to64();
            lemma2_to64_rest();
        }
        let r = if v < 0x80 {
            v as i8
        } else {
            (v - 0x80) as i8 - i8::MAX - 1
        };
        assert(draws(old(self)@, 8, self@, v as nat) && r as int == signed_of(v as nat, 8));
        r
    }

    /// 16 bits from the host's clock, least significant first.
    pub fn u16(&mut self) -> (r: u16)
        ensures
            draws(old(self)@, 16, final(self)@, r as nat),
    {
        let mut clock = SystemClock::new();
        let v = self.uint_with(&mut clock, 16);
        proof {
            lemma2_to64();
            lemma2_to64_rest();
        }
        v as u16
    }

    /// 16 bits from the host's clock, read as a two's-complement number.
    pub fn i16(&mut self) -> (r: i16)
        ensures
            exists|v: nat| draws(old(self)@, 16, final(self)@, v) && r as int == signed_of(v, 16),
    {
        let v = self.u16();
        proof {
            lemma2_to64();
            lemma2_to64_rest();
        }
        let r = if v < 0x8000 {
            v as i16
        } else {
            (v - 0x8000) as i16 - i16::MAX - 1
        };
        assert(draws(old(self)@, 16, self@, v as nat) && r as int == signed_of(v as nat, 16));
        r
    }

    /// 32 bits from the host's clock, least significant first.
    pub fn u32(&mut self) -> (r: u32)
        ensures
            draws(old(self)@, 32, final(self)@, r as nat),
    {
        let mut clock = SystemClock::new();
        let v = self.uint_with(&mut clock, 32);
        proof {
            lemma2_to64();
            lemma2_to64_rest();
        }
        v as u32
    }

    /// 32 bits from the host's clock, read as a two's-complement number.
    pub fn i32(&mut self) -> (r: i32)
        ensures
            exists|v: nat| draws(old(self)@, 32, final(self)@, v) && r as int == signed_of(v, 32),
    {
        let v = self.u32();
        proof {
            lemma2_to64();
            lemma2_to64_rest();
        }
        let r = if v < 0x80000000 {
            v as i32
        } else {
            (v - 0x80000000) as i32 - i32::MAX - 1
        };
        assert(draws(old(self)@, 32, self@, v as nat) && r as int == signed_of(v as nat, 32));
        r
    }

    /// 64 bits from the host's clock, least significant first.
    pub fn u64(&mut self) -> (r: u64)
        ensures
            draws(old(self)@, 64, final(self)@, r as nat),
    {
        let mut clock = SystemClock::new();
        let v = self.uint_with(&mut clock, 64);
        proof {
            lemma2_to64();
            lemma2_to64_rest();
        }
        v as u64
    }

    /// 64 bits from the host's clock, read as a two's-complement number.
    pub fn i64(&mut self) -> (r: i64)
        ensures
            exists|v: nat| draws(old(self)@, 64, final(self)@, v) && r as int == signed_of(v, 64),
    {
        let v = self.u64();
        proof {
            lemma2_to64();
            lemma2_to64_rest();
        }
        let r = if v < 0x8000000000000000 {
            v as i64
        } else {
            (v - 0x8000000000000000) as i64 - i64::MAX - 1
        };
        assert(draws(old(self)@, 64, self@, v as nat) && r as int == signed_of(v as nat, 64));
        r
    }

    /// 128 bits from the host's clock, least significant first.
    pub fn u128(&mut self) -> (r: u128)
        ensures
            draws(old(self)@, 128, final(self)@, r as nat),
    {
        let mut clock = SystemClock::new();
        let v = self.uint_with(&mut clock, 128);
        proof {
            lemma2_to64();
            lemma2_to64_rest();
        }
        v
    }

    /// 128 bits from the host's clock, read as a two's-complement number.
    pub fn i128(&mut self) -> (r: i128)
        ensures
            exists|v: nat| draws(old(self)@, 128, final(self)@, v) && r as int == signed_of(v, 128),
    {
        let v = self.u128();
        proof {
            lemma2_to64();
            lemma2_to64_rest();
            lemma_pow2_128();
        }
        let r = if v < 0x80000000000000000000000000000000 {
            v as i128
        } else {
            (v - 0x80000000000000000000000000000000) as i128 - i128::MAX - 1
        };
        assert(draws(old(self)@, 128, self@, v as nat) && r as int == signed_of(v as nat, 128));
        r
    }
}

} // verus!
