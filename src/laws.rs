//! Properties of the entropy core that hold for every state and every run of
//! clock samples.
use crate::model::{
    absorb_all, draws, emits, extractions, is_extraction, mix, signed_of, step, value_of, bits_of,
    CoreState,
};
use vstd::arithmetic::div_mod::lemma_add_mod_noop;
use vstd::arithmetic::power2::{lemma_pow2_pos, lemma_pow2_unfold, pow2};
use vstd::prelude::*;

verus! {

/// The mixing step yields a single bit.
pub proof fn lemma_mix_is_bit(sum: u32)
    ensures
        mix(sum) <= 1,
{
}

/// The number spelled by `n` bits is below 2^n.
pub proof fn lemma_value_below(bits: Seq<u32>)
    requires
        forall|i: int| 0 <= i < bits.len() ==> #[trigger] bits[i] <= 1,
    ensures
        value_of(bits) < pow2(bits.len()),
    decreases bits.len(),
{
    lemma_pow2_pos(bits.len());
    if bits.len() > 0 {
        let n = (bits.len() - 1) as nat;
        assert(bits.drop_last().len() == n);
        lemma_value_below(bits.drop_last());
        lemma_pow2_unfold(bits.len());
        assert(bits.last() as nat * pow2(n) <= pow2(n)) by (nonlinear_arith)
            requires
                bits.last() <= 1,
        ;
    }
}

/// Every `width`-bit draw lies in `[0, 2^width)`, and its two's-complement
/// reading lies in `[-2^(width-1), 2^(width-1))` and has the same bit pattern.
pub proof fn lemma_draw_in_range(s: CoreState, width: nat, t: CoreState, v: nat)
    requires
        1 <= width,
        draws(s, width, t, v),
    ensures
        v < pow2(width),
        -pow2((width - 1) as nat) <= signed_of(v, width) < pow2((width - 1) as nat),
        (signed_of(v, width) + pow2(width)) % (pow2(width) as int) == v,
{
    let groups = choose|groups: Seq<Seq<u32>>|
        #[trigger] extractions(s, groups) && groups.len() == width && t == crate::model::after(
            s,
            groups,
        ) && v == value_of(bits_of(s, groups));
    let bits = bits_of(s, groups);
    assert forall|i: int| 0 <= i < bits.len() implies #[trigger] bits[i] <= 1 by {
        lemma_mix_is_bit(crate::model::after(s, groups.take(i + 1)).sum);
    }
    lemma_value_below(bits);
    lemma_pow2_unfold(width);
    lemma_pow2_pos(width);
    let p = pow2(width) as int;
    let vi = v as int;
    if v < pow2((width - 1) as nat) {
        assert((vi + p) % p == vi) by (nonlinear_arith)
            requires
                0 <= vi < p,
        ;
    } else {
        assert((vi - p + p) % p == vi) by (nonlinear_arith)
            requires
                0 <= vi < p,
        ;
    }
}

/// What one extraction reads is fixed by the stream of samples: two
/// extractions from the same state, both read from the start of one stream,
/// are the same samples, and so leave the same state and yield the same bit.
pub proof fn lemma_extraction_determined(
    s: CoreState,
    stream: Seq<u32>,
    a: Seq<u32>,
    b: Seq<u32>,
)
    requires
        is_extraction(s, a),
        is_extraction(s, b),
        a.len() <= stream.len(),
        b.len() <= stream.len(),
        a == stream.take(a.len() as int),
        b == stream.take(b.len() as int),
    ensures
        a == b,
        absorb_all(s, a) == absorb_all(s, b),
        mix(absorb_all(s, a).sum) == mix(absorb_all(s, b).sum),
{
    if a.len() < b.len() {
        assert(b[a.len() - 1] == a.last());
        assert(false);
    } else if b.len() < a.len() {
        assert(a[b.len() - 1] == b.last());
        assert(false);
    }
    assert(a =~= b);
}

/// A sample read twice in a row yields no second bit: after the first read
/// it is the last sample, and reading it again leaves the last sample as it is.
pub proof fn lemma_repeat_yields_nothing(s: CoreState, ns: u32)
    ensures
        !emits(step(s, ns), ns),
        step(step(s, ns), ns).last_ns == step(s, ns).last_ns,
{
}

/// The sum of a run of samples, as an unbounded integer.
pub open spec fn total(samples: Seq<u32>) -> int
    decreases samples.len(),
{
    if samples.len() == 0 {
        0
    } else {
        total(samples.drop_last()) + samples.last()
    }
}

/// The accumulator wraps: after any run of samples it holds the old sum plus
/// every sample, modulo 2^32.
pub proof fn lemma_sum_wraps(s: CoreState, samples: Seq<u32>)
    ensures
        absorb_all(s, samples).sum as int == (s.sum as int + total(samples)) % 0x1_0000_0000,
    decreases samples.len(),
{
    if samples.len() > 0 {
        let front = samples.drop_last();
        lemma_sum_wraps(s, front);
        lemma_add_mod_noop(s.sum as int + total(front), samples.last() as int, 0x1_0000_0000);
    }
}

} // verus!
