use vstd::arithmetic::power2::{lemma2_to64, lemma_pow2_unfold, pow2};
use vstd::prelude::*;

verus! {

/// Largest value of the signed 32-bit accumulation domain.
pub const SAMPLE_MAX: i64 = 2147483647;

/// Smallest value of the signed 32-bit accumulation domain.
pub const SAMPLE_MIN: i64 = -2147483648;

/// Ratio of the 32-bit full-scale range to the 8-bit one (`u32::MAX / u8::MAX`).
pub const SCALE_8: i64 = 16843009;

/// Ratio of the 32-bit full-scale range to the 16-bit one (`u32::MAX / u16::MAX`).
pub const SCALE_16: i64 = 65537;

/// Ratio of the 32-bit full-scale range to three 8-bit ranges (`u32::MAX / (3 * u8::MAX)`),
/// the constant used for 24-bit encodings.
pub const SCALE_24: i64 = 5614336;

/// One frame of PCM data: one value per channel, in one of a fixed family of encodings.
///
/// Floating-point encodings are carried as their IEEE-754 bit patterns (`f32::to_bits`,
/// `f64::to_bits`), which is all that the mixing rules read of them.
#[derive(Debug, Clone, PartialEq, Hash)]
pub enum Sample {
    U8(Vec<u8>),
    U16(Vec<u16>),
    U24(Vec<u32>),
    U32(Vec<u32>),
    S8(Vec<i8>),
    S16(Vec<i16>),
    S24(Vec<i32>),
    S32(Vec<i32>),
    F32(Vec<u32>),
    F64(Vec<u64>),
    /// Nothing produced for this frame.
    Empty,
}

/// Why a set of samples could not be combined.
#[derive(Debug, Clone, Copy, PartialEq, Eq)]
pub enum CombineError {
    /// Two non-empty samples disagree on their number of channels.
    ChannelInconsistency,
}

/// `x` clamped into the `i32` range.
pub open spec fn clamp_i32(x: int) -> i32 {
    if x > i32::MAX {
        i32::MAX
    } else if x < i32::MIN {
        i32::MIN
    } else {
        x as i32
    }
}

/// Saturating addition in the accumulation domain.
pub open spec fn sat_add(a: i32, b: i32) -> i32 {
    clamp_i32(a + b)
}

/// Bit `k` of `b`.
pub open spec fn bit_of(b: u64, k: u64) -> nat {
    ((b >> k) & 1u64) as nat
}

/// The number whose bit `i` is bit `2 * i + 1` of `b`, for the lowest `n` bits.
pub open spec fn odd_bits(b: u64, n: nat) -> nat
    decreases n,
{
    if n == 0 {
        0
    } else {
        odd_bits(b, (n - 1) as nat) + bit_of(b, (2 * (n - 1) + 1) as u64) * pow2((n - 1) as nat)
    }
}

/// Number of channels of a sample (none for `Empty`).
pub open spec fn channels(s: Sample) -> nat {
    match s {
        Sample::U8(v) => v@.len(),
        Sample::U16(v) => v@.len(),
        Sample::U24(v) => v@.len(),
        Sample::U32(v) => v@.len(),
        Sample::S8(v) => v@.len(),
        Sample::S16(v) => v@.len(),
        Sample::S24(v) => v@.len(),
        Sample::S32(v) => v@.len(),
        Sample::F32(v) => v@.len(),
        Sample::F64(v) => v@.len(),
        Sample::Empty => 0,
    }
}

/// Channel `i` of `s`, lifted into the signed 32-bit domain.
///
/// Unsigned values are recentred around the signed midpoint, narrower integers are scaled
/// by the ratio of full-scale ranges, and floats are mapped through their bit pattern; a
/// value that the scaling carries out of range is clamped.
pub open spec fn lift_at(s: Sample, i: int) -> i32 {
    match s {
        Sample::U8(v) => clamp_i32(v@[i] * SCALE_8 + SAMPLE_MIN),
        Sample::U16(v) => clamp_i32(v@[i] * SCALE_16 + SAMPLE_MIN),
        Sample::U24(v) => clamp_i32(v@[i] * SCALE_24 + SAMPLE_MIN),
        Sample::U32(v) => clamp_i32(v@[i] + SAMPLE_MIN),
        Sample::S8(v) => clamp_i32(v@[i] * SCALE_8),
        Sample::S16(v) => clamp_i32(v@[i] * SCALE_16),
        Sample::S24(v) => clamp_i32(v@[i] * SCALE_24),
        Sample::S32(v) => v@[i],
        Sample::F32(v) => clamp_i32(v@[i] + SAMPLE_MIN),
        Sample::F64(v) => clamp_i32(odd_bits(v@[i], 32) + SAMPLE_MIN),
        Sample::Empty => 0,
    }
}

/// All channels of `s` lifted, or `None` for `Empty`.
pub open spec fn lifted(s: Sample) -> Option<Seq<i32>> {
    if s is Empty {
        None
    } else {
        Some(Seq::new(channels(s), |i: int| lift_at(s, i)))
    }
}

/// Adds one more sample into an accumulator.
pub open spec fn accumulate(acc: Option<Seq<i32>>, s: Sample) -> Result<Option<Seq<i32>>, CombineError> {
    match lifted(s) {
        None => Ok(acc),
        Some(l) => match acc {
            None => Ok(Some(l)),
            Some(a) => if a.len() == l.len() {
                Ok(Some(Seq::new(a.len(), |i: int| sat_add(a[i], l[i]))))
            } else {
                Err(CombineError::ChannelInconsistency)
            },
        },
    }
}

/// The samples folded, in order, into one per-channel accumulator; `Ok(None)` when no
/// sample carries any channel data.
pub open spec fn combine_spec(samples: Seq<Sample>) -> Result<Option<Seq<i32>>, CombineError>
    decreases samples.len(),
{
    if samples.len() == 0 {
        Ok(None)
    } else {
        match combine_spec(samples.drop_last()) {
            Err(e) => Err(e),
            Ok(acc) => accumulate(acc, samples.last()),
        }
    }
}

/// What an accumulator held by the executable code stands for.
pub open spec fn combined_view(r: Result<Option<Vec<i32>>, CombineError>) -> Result<Option<Seq<i32>>, CombineError> {
    match r {
        Ok(Some(v)) => Ok(Some(v@)),
        Ok(None) => Ok(None),
        Err(e) => Err(e),
    }
}

/// Once a prefix of the samples fails to combine, so do the samples as a whole.
proof fn lemma_error_persists(samples: Seq<Sample>, k: int)
    requires
        0 <= k <= samples.len(),
        combine_spec(samples.subrange(0, k)) is Err,
    ensures
        combine_spec(samples) == combine_spec(samples.subrange(0, k)),
    decreases samples.len() - k,
{
    if k < samples.len() {
        let longer = samples.subrange(0, k + 1);
        assert(longer.drop_last() =~= samples.subrange(0, k));
        lemma_error_persists(samples, k + 1);
    } else {
        assert(samples.subrange(0, k) =~= samples);
    }
}

fn clamp(x: i64) -> (r: i32)
    ensures
        r == clamp_i32(x as int),
{
    if x > SAMPLE_MAX {
        i32::MAX
    } else if x < SAMPLE_MIN {
        i32::MIN
    } else {
        x as i32
    }
}

/// Saturating addition of two channel values.
pub fn saturating_add(a: i32, b: i32) -> (r: i32)
    ensures
        r == sat_add(a, b),
{
    clamp(a as i64 + b as i64)
}

/// Gathers the odd-numbered bits of a 64-bit pattern into a 32-bit number.
pub fn odd_bits_of(bits: u64) -> (r: u64)
    ensures
        r as nat == odd_bits(bits, 32),
        r < 0x1_0000_0000,
{
    let mut r: u64 = 0;
    let mut p: u64 = 1;
    let mut i: u64 = 0;
    proof {
        lemma2_to64();
    }
    while i < 32
        invariant
            i <= 32,
            p as nat == pow2(i as nat),
            r as nat == odd_bits(bits, i as nat),
            r < p,
            p <= 0x1_0000_0000,
        decreases 32 - i,
    {
        let bit: u64 = (bits >> (2 * i + 1)) & 1;
        assert(bit <= 1) by (bit_vector)
            requires
                bit == (bits >> (2 * i + 1)) & 1,
        ;
        proof {
            lemma_pow2_unfold((i + 1) as nat);
            lemma2_to64();
            assert(pow2(32) == 0x1_0000_0000);
            if i + 1 < 32 {
                vstd::arithmetic::power2::lemma_pow2_strictly_increases((i + 1) as nat, 32);
            }
        }
        assert(bit as nat == bit_of(bits, (2 * i + 1) as u64));
        assert(odd_bits(bits, (i + 1) as nat) == odd_bits(bits, i as nat) + bit as nat * pow2(
            i as nat,
        ));
        if bit == 1 {
            assert(bit as nat * pow2(i as nat) == pow2(i as nat));
            r = r + p;
        } else {
            assert(bit == 0);
            assert(bit as nat * pow2(i as nat) == 0) by (nonlinear_arith)
                requires
                    bit == 0,
            ;
        }
        p = p * 2;
        i = i + 1;
    }
    r
}

impl Sample {
    /// The number of channels, or `None` for `Empty`.
    pub fn channel_count(&self) -> (r: Option<usize>)
        ensures
            r is None <==> *self is Empty,
            r is Some ==> r->0 == channels(*self),
    {
        match self {
            Sample::U8(v) => Some(v.len()),
            Sample::U16(v) => Some(v.len()),
            Sample::U24(v) => Some(v.len()),
            Sample::U32(v) => Some(v.len()),
            Sample::S8(v) => Some(v.len()),
            Sample::S16(v) => Some(v.len()),
            Sample::S24(v) => Some(v.len()),
            Sample::S32(v) => Some(v.len()),
            Sample::F32(v) => Some(v.len()),
            Sample::F64(v) => Some(v.len()),
            Sample::Empty => None,
        }
    }

    /// Channel `i` lifted into the signed 32-bit domain.
    pub fn lift(&self, i: usize) -> (r: i32)
        requires
            i < channels(*self),
        ensures
            r == lift_at(*self, i as int),
    {
        match self {
            Sample::U8(v) => clamp(v[i] as i64 * SCALE_8 + SAMPLE_MIN),
            Sample::U16(v) => clamp(v[i] as i64 * SCALE_16 + SAMPLE_MIN),
            Sample::U24(v) => clamp(v[i] as i64 * SCALE_24 + SAMPLE_MIN),
            Sample::U32(v) => clamp(v[i] as i64 + SAMPLE_MIN),
            Sample::S8(v) => clamp(v[i] as i64 * SCALE_8),
            Sample::S16(v) => clamp(v[i] as i64 * SCALE_16),
            Sample::S24(v) => clamp(v[i] as i64 * SCALE_24),
            Sample::S32(v) => v[i],
            Sample::F32(v) => clamp(v[i] as i64 + SAMPLE_MIN),
            Sample::F64(v) => {
                let bits = odd_bits_of(v[i]);
                clamp(bits as i64 + SAMPLE_MIN)
            },
            Sample::Empty => 0,
        }
    }
}

/// Folds the samples of one frame into a single signed 32-bit value per channel, adding
/// with saturation. `Empty` samples are skipped; if nothing but `Empty` (or nothing at
/// all) is given the result is `Ok(None)`. Two non-empty samples with different channel
/// counts give `ChannelInconsistency`.
pub fn combine_i32(samples: &[Sample]) -> (r: Result<Option<Vec<i32>>, CombineError>)
    ensures
        combined_view(r) == combine_spec(samples@),
{
    let mut started = false;
    let mut acc: Vec<i32> = Vec::new();
    let mut k: usize = 0;
    while k < samples.len()
        invariant
            k <= samples@.len(),
            combine_spec(samples@.subrange(0, k as int)) == (if started {
                Ok(Some(acc@))
            } else {
                Ok::<Option<Seq<i32>>, CombineError>(None)
            }),
        decreases samples@.len() - k,
    {
        let s = &samples[k];
        assert(samples@.subrange(0, k + 1).drop_last() =~= samples@.subrange(0, k as int));
        assert(samples@.subrange(0, k + 1).last() == samples@[k as int]);
        match s.channel_count() {
            None => {},
            Some(n) => {
                if !started {
                    let mut fresh: Vec<i32> = Vec::new();
                    let mut j: usize = 0;
                    while j < n
                        invariant
                            j <= n,
                            n == channels(*s),
                            fresh@.len() == j,
                            forall|c: int| 0 <= c < j ==> fresh@[c] == lift_at(*s, c),
                        decreases n - j,
                    {
                        fresh.push(s.lift(j));
                        j += 1;
                    }
                    assert(fresh@ =~= lifted(*s)->0);
                    acc = fresh;
                    started = true;
                } else {
                    if acc.len() != n {
                        proof {
                            lemma_error_persists(samples@, (k + 1) as int);
                        }
                        return Err(CombineError::ChannelInconsistency);
                    }
                    let ghost before = acc@;
                    let mut j: usize = 0;
                    while j < n
                        invariant
                            j <= n,
                            n == channels(*s),
                            acc@.len() == n,
                            before.len() == n,
                            forall|c: int| 0 <= c < j ==> acc@[c] == sat_add(before[c], lift_at(*s, c)),
                            forall|c: int| j <= c < n ==> acc@[c] == before[c],
                        decreases n - j,
                    {
                        let v = saturating_add(acc[j], s.lift(j));
                        acc.set(j, v);
                        j += 1;
                    }
                    assert(acc@ =~= Seq::new(before.len(), |i: int| sat_add(before[i], (lifted(*s)->0)[i])));
                }
            },
        }
        k += 1;
    }
    assert(samples@.subrange(0, samples@.len() as int) =~= samples@);
    if started {
        Ok(Some(acc))
    } else {
        Ok(None)
    }
}

} // verus!

verus! {

/// Every non-empty sample that takes part in a successful combination has as many channels
/// as the result, and a result of `None` means that every sample was `Empty`.
pub proof fn lemma_combined_channels(samples: Seq<Sample>)
    ensures
        combine_spec(samples) matches Ok(Some(a)) ==> forall|k: int|
            0 <= k < samples.len() && !(samples[k] is Empty) ==> channels(samples[k]) == a.len(),
        combine_spec(samples) matches Ok(None) ==> forall|k: int|
            0 <= k < samples.len() ==> samples[k] is Empty,
    decreases samples.len(),
{
    if samples.len() > 0 {
        let init = samples.drop_last();
        lemma_combined_channels(init);
        assert forall|k: int| 0 <= k < init.len() implies init[k] == samples[k] by {}
    }
}

/// Channel invariant: once two non-empty samples with different channel counts take part,
/// combining fails with `ChannelInconsistency` and yields no accumulator at all.
pub proof fn lemma_channel_mismatch(samples: Seq<Sample>, i: int, j: int)
    requires
        0 <= i < samples.len(),
        0 <= j < samples.len(),
        !(samples[i] is Empty),
        !(samples[j] is Empty),
        channels(samples[i]) != channels(samples[j]),
    ensures
        combine_spec(samples) == Err::<Option<Seq<i32>>, CombineError>(
            CombineError::ChannelInconsistency,
        ),
{
    lemma_combined_channels(samples);
    lemma_only_inconsistency(samples);
}

/// The only way combining fails is `ChannelInconsistency`.
proof fn lemma_only_inconsistency(samples: Seq<Sample>)
    ensures
        combine_spec(samples) is Err ==> combine_spec(samples) == Err::<Option<Seq<i32>>, CombineError>(
            CombineError::ChannelInconsistency,
        ),
    decreases samples.len(),
{
    if samples.len() > 0 {
        lemma_only_inconsistency(samples.drop_last());
    }
}

/// Saturation: two samples whose lifted channels all lie within 1 of the domain maximum
/// sum to the domain maximum in every channel, with no wraparound.
pub proof fn lemma_saturation(a: Sample, b: Sample)
    requires
        !(a is Empty),
        !(b is Empty),
        channels(a) == channels(b),
        forall|i: int| 0 <= i < channels(a) ==> lift_at(a, i) >= i32::MAX - 1,
        forall|i: int| 0 <= i < channels(b) ==> lift_at(b, i) >= i32::MAX - 1,
    ensures
        combine_spec(seq![a, b]) == Ok::<Option<Seq<i32>>, CombineError>(
            Some(Seq::new(channels(a), |i: int| i32::MAX)),
        ),
{
    let s = seq![a, b];
    assert(s.drop_last() =~= seq![a]);
    assert(seq![a].drop_last() =~= Seq::<Sample>::empty());
    assert(seq![a].last() == a);
    assert(combine_spec(Seq::<Sample>::empty()) == Ok::<Option<Seq<i32>>, CombineError>(None));
    assert(s.last() == b);
    assert(combine_spec(seq![a]) == Ok::<Option<Seq<i32>>, CombineError>(lifted(a)));
    let sum = Seq::new(channels(a), |i: int| sat_add((lifted(a)->0)[i], (lifted(b)->0)[i]));
    assert(combine_spec(s) == Ok::<Option<Seq<i32>>, CombineError>(Some(sum)));
    assert(sum =~= Seq::new(channels(a), |i: int| i32::MAX));
}

} // verus!
