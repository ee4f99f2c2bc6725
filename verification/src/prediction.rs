use vstd::prelude::*;

verus! {

/// A single prediction relationship: `source` predicts `target` at a given lag.
#[derive(Clone, Copy, Debug, PartialEq, Eq)]
pub struct Prediction {
    /// Index of the source agent whose past state is used as the predictor.
    pub source: usize,
    /// Index of the target agent being predicted.
    pub target: usize,
    /// Lag steps: `source[t]` predicts `target[t + lag]`.
    pub lag: usize,
    /// Bit pattern of the Pearson correlation between the shifted series.
    pub correlation: u64,
    /// Bit pattern of the accuracy, `|correlation|` clipped to `[0, 1]`.
    pub accuracy: u64,
}

/// Bit pattern of the accuracy `1.0`, the highest accuracy there is.
pub const FULL_ACCURACY: u64 = 0x3FF0_0000_0000_0000u64;

/// Every bit of a double but its sign.
pub const MAGNITUDE_BITS: u64 = 0x7FFF_FFFF_FFFF_FFFFu64;

/// The accuracy of a correlation, `|correlation|` clipped to `[0, 1]`, on bit
/// patterns: the sign bit is cleared, and the magnitude is capped at that of
/// `1.0`. Since non-negative doubles order as their bit patterns do, a NaN or an
/// infinite correlation gets accuracy `1.0`, as `min(1.0)` gives it.
pub open spec fn clipped_accuracy(correlation: u64) -> u64 {
    let magnitude = correlation & MAGNITUDE_BITS;
    if magnitude < FULL_ACCURACY {
        magnitude
    } else {
        FULL_ACCURACY
    }
}

/// Bit of a double's sign.
pub const SIGN_BIT: u64 = 0x8000_0000_0000_0000u64;

/// The accuracy of a correlation is its magnitude clipped to `[0, 1]`:
/// - it never exceeds `1.0`;
/// - it leaves a value of `[0, 1]` unchanged, and so is idempotent;
/// - it ignores the sign, as `|c| == |-c|`;
/// - on magnitudes in `[0, 1]` it is the magnitude itself, and it is `1.0` beyond;
/// - it is monotone in the magnitude, strictly so on `[0, 1]`.
pub proof fn lemma_clipped_accuracy_laws(c: u64, d: u64)
    ensures
        clipped_accuracy(c) <= FULL_ACCURACY,
        c <= FULL_ACCURACY ==> clipped_accuracy(c) == c,
        clipped_accuracy(clipped_accuracy(c)) == clipped_accuracy(c),
        clipped_accuracy(c ^ SIGN_BIT) == clipped_accuracy(c),
        (c & MAGNITUDE_BITS) <= FULL_ACCURACY ==> clipped_accuracy(c) == (c & MAGNITUDE_BITS),
        (c & MAGNITUDE_BITS) >= FULL_ACCURACY ==> clipped_accuracy(c) == FULL_ACCURACY,
        (c & MAGNITUDE_BITS) <= (d & MAGNITUDE_BITS) ==> clipped_accuracy(c) <= clipped_accuracy(d),
        (c & MAGNITUDE_BITS) < (d & MAGNITUDE_BITS) <= FULL_ACCURACY ==> clipped_accuracy(c)
            < clipped_accuracy(d),
{
    assert(c <= 0x3FF0_0000_0000_0000u64 ==> c & 0x7FFF_FFFF_FFFF_FFFFu64 == c) by (bit_vector);
    assert((c ^ 0x8000_0000_0000_0000u64) & 0x7FFF_FFFF_FFFF_FFFFu64 == c & 0x7FFF_FFFF_FFFF_FFFFu64)
        by (bit_vector);
    assert(0x3FF0_0000_0000_0000u64 & 0x7FFF_FFFF_FFFF_FFFFu64 == 0x3FF0_0000_0000_0000u64) by (bit_vector);
    let m = c & MAGNITUDE_BITS;
    assert(m <= 0x3FF0_0000_0000_0000u64 ==> m & 0x7FFF_FFFF_FFFF_FFFFu64 == m) by (bit_vector);
}

/// The accuracy of `correlation`: `|correlation|` clipped to `[0, 1]`.
pub fn clip_accuracy(correlation: u64) -> (accuracy: u64)
    ensures
        accuracy == clipped_accuracy(correlation),
        accuracy <= FULL_ACCURACY,
        (correlation & MAGNITUDE_BITS) <= FULL_ACCURACY ==> accuracy == (correlation & MAGNITUDE_BITS),
        (correlation & MAGNITUDE_BITS) >= FULL_ACCURACY ==> accuracy == FULL_ACCURACY,
{
    let magnitude = correlation & MAGNITUDE_BITS;
    if magnitude < FULL_ACCURACY {
        magnitude
    } else {
        FULL_ACCURACY
    }
}

} // verus!
