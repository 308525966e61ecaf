//! The mathematical model of the entropy core: its state, the effect of one
//! clock sample on it, the mixing step, and what a run of samples produces.
use vstd::arithmetic::power2::pow2;
use vstd::prelude::*;

verus! {

/// The odd constant that scrambles the accumulator before a bit is taken.
pub const MIX: u32 = 1210758371;

/// The most clock samples one bit extraction reads while waiting for a change.
pub const POLL_LIMIT: u64 = 0xffff_ffff_ffff_ffff;

/// The state of an entropy core as the contracts see it.
pub struct CoreState {
    /// The most recent clock sample.
    pub last_ns: u32,
    /// The wrapping sum of every clock sample read so far.
    pub sum: u32,
}

/// The state of a freshly built core.
pub open spec fn initial() -> CoreState {
    CoreState { last_ns: 0, sum: 0 }
}

/// Addition modulo 2^32.
pub open spec fn add32(a: u32, b: u32) -> u32 {
    ((a as int + b as int) % 0x1_0000_0000) as u32
}

/// The bit taken from an accumulator: the top bit of `sum * MIX` modulo 2^32.
pub open spec fn mix(sum: u32) -> u32 {
    (((sum as int * MIX as int) % 0x1_0000_0000) / 0x8000_0000) as u32
}

/// The state after one clock sample has been read.
pub open spec fn step(s: CoreState, ns: u32) -> CoreState {
    CoreState { last_ns: ns, sum: add32(s.sum, ns) }
}

/// Whether a sample, read in state `s`, yields a bit: it differs from the last one.
pub open spec fn emits(s: CoreState, ns: u32) -> bool {
    ns != s.last_ns
}

/// The state after a run of samples has been read, oldest first.
pub open spec fn absorb_all(s: CoreState, samples: Seq<u32>) -> CoreState
    decreases samples.len(),
{
    if samples.len() == 0 {
        s
    } else {
        step(absorb_all(s, samples.drop_last()), samples.last())
    }
}

/// Whether `samples` is what one bit extraction reads from state `s`: samples
/// equal to the last one until one differs, or until the poll limit is reached.
pub open spec fn is_extraction(s: CoreState, samples: Seq<u32>) -> bool {
    &&& 1 <= samples.len() <= POLL_LIMIT
    &&& forall|i: int| 0 <= i < samples.len() - 1 ==> #[trigger] samples[i] == s.last_ns
    &&& (emits(s, samples.last()) || samples.len() == POLL_LIMIT)
}

/// The state after several extractions, each a group of samples, oldest first.
pub open spec fn after(s: CoreState, groups: Seq<Seq<u32>>) -> CoreState
    decreases groups.len(),
{
    if groups.len() == 0 {
        s
    } else {
        absorb_all(after(s, groups.drop_last()), groups.last())
    }
}

/// Whether each group is an extraction from the state that the groups before it left.
pub open spec fn extractions(s: CoreState, groups: Seq<Seq<u32>>) -> bool {
    forall|i: int|
        0 <= i < groups.len() ==> #[trigger] is_extraction(after(s, groups.take(i)), groups[i])
}

/// The bits that a series of extractions yields, one per group.
pub open spec fn bits_of(s: CoreState, groups: Seq<Seq<u32>>) -> Seq<u32> {
    Seq::new(groups.len(), |i: int| mix(after(s, groups.take(i + 1)).sum))
}

/// The number whose binary digits are `bits`, least significant first.
pub open spec fn value_of(bits: Seq<u32>) -> nat
    decreases bits.len(),
{
    if bits.len() == 0 {
        0
    } else {
        value_of(bits.drop_last()) + bits.last() as nat * pow2((bits.len() - 1) as nat)
    }
}

/// The two's-complement reading of an unsigned `width`-bit value.
pub open spec fn signed_of(v: nat, width: nat) -> int {
    if v < pow2((width - 1) as nat) {
        v as int
    } else {
        v - pow2(width)
    }
}

/// Appending a group extends the state that the groups leave.
pub proof fn lemma_after_push(s: CoreState, groups: Seq<Seq<u32>>, g: Seq<u32>)
    ensures
        after(s, groups.push(g)) == absorb_all(after(s, groups), g),
{
    assert(groups.push(g).drop_last() =~= groups);
}

/// An extraction from the state that valid groups leave extends them.
pub proof fn lemma_extractions_push(s: CoreState, groups: Seq<Seq<u32>>, g: Seq<u32>)
    requires
        extractions(s, groups),
        is_extraction(after(s, groups), g),
    ensures
        extractions(s, groups.push(g)),
{
    let gs = groups.push(g);
    assert forall|i: int| 0 <= i < gs.len() implies #[trigger] is_extraction(
        after(s, gs.take(i)),
        gs[i],
    ) by {
        if i < groups.len() {
            assert(gs.take(i) =~= groups.take(i));
        } else {
            assert(gs.take(i) =~= groups);
        }
    }
}

/// Appending a group appends the bit that it yields.
pub proof fn lemma_bits_push(s: CoreState, groups: Seq<Seq<u32>>, g: Seq<u32>)
    ensures
        bits_of(s, groups.push(g)) =~= bits_of(s, groups).push(
            mix(after(s, groups.push(g)).sum),
        ),
{
    let gs = groups.push(g);
    let lhs = bits_of(s, gs);
    let rhs = bits_of(s, groups).push(mix(after(s, gs).sum));
    assert forall|i: int| 0 <= i < lhs.len() implies #[trigger] lhs[i] == rhs[i] by {
        if i < groups.len() {
            assert(gs.take(i + 1) =~= groups.take(i + 1));
        } else {
            assert(gs.take(i + 1) =~= gs);
        }
    }
}

/// Appending a bit adds its weight at the next position.
pub proof fn lemma_value_push(bits: Seq<u32>, b: u32)
    ensures
        value_of(bits.push(b)) == value_of(bits) + b as nat * pow2(bits.len()),
{
    assert(bits.push(b).drop_last() =~= bits);
}

/// Whether `width` extractions from state `s` leave state `t` and yield the
/// bits of `v`, least significant first.
pub open spec fn draws(s: CoreState, width: nat, t: CoreState, v: nat) -> bool {
    exists|groups: Seq<Seq<u32>>|
        #[trigger] extractions(s, groups) && groups.len() == width && t == after(s, groups) && v
            == value_of(bits_of(s, groups))
}

/// Whether one extraction from state `s` leaves state `t` and yields bit `b`.
pub open spec fn draws_bit(s: CoreState, t: CoreState, b: u32) -> bool {
    exists|samples: Seq<u32>|
        #[trigger] is_extraction(s, samples) && t == absorb_all(s, samples) && b == mix(t.sum)
}

} // verus!
