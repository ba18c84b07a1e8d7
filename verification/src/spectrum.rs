//! Framing of the spectrum transform and the spectrum that is kept for
//! display.
//!
//! The transform itself works on floating-point numbers and is done by the
//! caller: this module decides the transform size, cuts or pads the samples
//! to it, and keeps the positive-frequency half of the levels that come
//! back, in hundredths of a decibel.

use vstd::prelude::*;

verus! {

/// Largest transform size.
pub const MAX_TRANSFORM_SIZE: usize = 4096;

/// Lowest level that is kept: -80 dB, in hundredths of a decibel.
pub const SPECTRUM_FLOOR: i32 = -8_000;

/// Sample rate of a new spectrum canvas, in hertz.
pub const DEFAULT_SAMPLE_RATE: u32 = 48_000;

/// Whether `n` is a power of two.
pub open spec fn is_power_of_two(n: int) -> bool
    decreases n,
{
    if n <= 0 {
        false
    } else if n == 1 {
        true
    } else {
        n % 2 == 0 && is_power_of_two(n / 2)
    }
}

/// Distance from `p` up to the largest transform size.
pub open spec fn headroom(p: int) -> nat {
    if p < MAX_TRANSFORM_SIZE {
        (MAX_TRANSFORM_SIZE - p) as nat
    } else {
        0
    }
}

/// `p` doubled until it reaches `len` or the largest transform size.
pub open spec fn doubled_up_to(p: int, len: int) -> int
    decreases headroom(p),
{
    if p <= 0 || p >= len || p >= MAX_TRANSFORM_SIZE {
        p
    } else {
        doubled_up_to(2 * p, len)
    }
}

/// Size of the transform for `len` samples: the least power of two that is
/// not below `len`, but no more than the largest transform size.
pub open spec fn transform_size(len: int) -> int {
    doubled_up_to(1, len)
}

/// The samples cut or padded with zeros to the transform size. No samples
/// give an empty frame.
pub open spec fn framed(samples: Seq<i32>) -> Seq<i32> {
    if samples.len() == 0 {
        Seq::empty()
    } else {
        Seq::new(
            transform_size(samples.len() as int) as nat,
            |i: int|
                if i < samples.len() {
                    samples[i]
                } else {
                    0i32
                },
        )
    }
}

/// `level`, but no lower than the floor.
pub open spec fn floored(level: i32) -> i32 {
    if level < SPECTRUM_FLOOR {
        SPECTRUM_FLOOR
    } else {
        level
    }
}

/// The first half of the levels, each no lower than the floor.
pub open spec fn positive_half(levels: Seq<i32>) -> Seq<i32> {
    Seq::new(levels.len() / 2, |i: int| floored(levels[i]))
}

/// Of two powers of two, the smaller is at most half the larger.
pub proof fn lemma_powers_of_two_apart(p: int, q: int)
    requires
        is_power_of_two(p),
        is_power_of_two(q),
        q < p,
    ensures
        2 * q <= p,
    decreases q,
{
    if q > 1 {
        lemma_powers_of_two_apart(p / 2, q / 2);
    }
}

/// Doubling a power of two up to `len` gives the least power of two that is
/// not below `len`, or the largest transform size where that is less.
proof fn lemma_doubled_up_to(p: int, len: int)
    requires
        is_power_of_two(p),
        p <= MAX_TRANSFORM_SIZE,
        p == 1 || p / 2 < len,
    ensures
        is_power_of_two(doubled_up_to(p, len)),
        p <= doubled_up_to(p, len) <= MAX_TRANSFORM_SIZE,
        doubled_up_to(p, len) >= len || doubled_up_to(p, len) == MAX_TRANSFORM_SIZE,
        doubled_up_to(p, len) == 1 || doubled_up_to(p, len) / 2 < len,
    decreases headroom(p),
{
    if !(p >= len || p >= MAX_TRANSFORM_SIZE) {
        lemma_max_transform_size_is_power_of_two();
        lemma_powers_of_two_apart(MAX_TRANSFORM_SIZE as int, p);
        assert(is_power_of_two(2 * p)) by {
            assert((2 * p) / 2 == p);
        }
        lemma_doubled_up_to(2 * p, len);
    }
}

/// 4096 is a power of two.
proof fn lemma_max_transform_size_is_power_of_two()
    ensures
        is_power_of_two(MAX_TRANSFORM_SIZE as int),
{
    reveal_with_fuel(is_power_of_two, 14);
}

/// The transform size is a power of two between 1 and the largest transform
/// size. It is not below `len` unless it is the largest size, and no
/// smaller power of two is not below `len`.
pub proof fn lemma_transform_size(len: int)
    ensures
        is_power_of_two(transform_size(len)),
        1 <= transform_size(len) <= MAX_TRANSFORM_SIZE,
        transform_size(len) >= len || transform_size(len) == MAX_TRANSFORM_SIZE,
        forall|q: int| is_power_of_two(q) && q >= len ==> transform_size(len) <= q,
{
    lemma_doubled_up_to(1, len);
    let r = transform_size(len);
    assert forall|q: int| is_power_of_two(q) && q >= len implies r <= q by {
        if q < r {
            lemma_powers_of_two_apart(r, q);
        }
    }
}

/// The spectrum kept for levels as many as the frame of `samples` has: half
/// the transform size of them, none for no samples, and none below the floor.
pub proof fn lemma_spectrum_of_frame(samples: Seq<i32>, levels: Seq<i32>)
    requires
        levels.len() == framed(samples).len(),
    ensures
        samples.len() == 0 ==> positive_half(levels).len() == 0,
        samples.len() > 0 ==> positive_half(levels).len() == transform_size(samples.len() as int)
            / 2,
        forall|i: int|
            0 <= i < positive_half(levels).len() ==> #[trigger] positive_half(levels)[i]
                >= SPECTRUM_FLOOR,
{
    lemma_transform_size(samples.len() as int);
}

/// Size of the transform for `len` samples.
pub fn fft_size(len: usize) -> (size: usize)
    ensures
        size as int == transform_size(len as int),
        1 <= size <= MAX_TRANSFORM_SIZE,
{
    proof {
        lemma_transform_size(len as int);
    }
    let mut size: usize = 1;
    while size < len && size < MAX_TRANSFORM_SIZE
        invariant
            1 <= size <= MAX_TRANSFORM_SIZE,
            doubled_up_to(size as int, len as int) == transform_size(len as int),
            transform_size(len as int) <= MAX_TRANSFORM_SIZE,
        decreases 2 * MAX_TRANSFORM_SIZE - size,
    {
        proof {
            lemma_doubling_stays_below(size as int, len as int);
        }
        size = size * 2;
    }
    size
}

/// A doubling whose result stays within the largest transform size never
/// passes through a value above it.
proof fn lemma_doubling_stays_below(p: int, len: int)
    requires
        1 <= p < MAX_TRANSFORM_SIZE,
        p < len,
        doubled_up_to(p, len) <= MAX_TRANSFORM_SIZE,
    ensures
        2 * p <= MAX_TRANSFORM_SIZE,
{
    lemma_doubled_up_to_grows(2 * p, len);
}

/// Doubling never lowers a positive value.
proof fn lemma_doubled_up_to_grows(p: int, len: int)
    requires
        p >= 1,
    ensures
        doubled_up_to(p, len) >= p,
    decreases headroom(p),
{
    if !(p >= len || p >= MAX_TRANSFORM_SIZE) {
        lemma_doubled_up_to_grows(2 * p, len);
    }
}

/// The samples cut or padded with zeros to the transform size.
pub fn spectrum_frame(samples: &[i32]) -> (frame: Vec<i32>)
    ensures
        frame@ == framed(samples@),
        samples@.len() == 0 ==> frame@.len() == 0,
        samples@.len() > 0 ==> frame@.len() == transform_size(samples@.len() as int),
{
    let len = samples.len();
    let mut frame: Vec<i32> = Vec::new();
    if len == 0 {
        assert(frame@ =~= framed(samples@));
        return frame;
    }
    let size = fft_size(len);
    let mut i: usize = 0;
    while i < size
        invariant
            i <= size,
            len == samples@.len(),
            frame@.len() == i,
            forall|k: int|
                0 <= k < i ==> #[trigger] frame@[k] == if k < len {
                    samples@[k]
                } else {
                    0i32
                },
        decreases size - i,
    {
        if i < len {
            frame.push(samples[i]);
        } else {
            frame.push(0);
        }
        i += 1;
    }
    assert(frame@ =~= framed(samples@));
    frame
}

/// The spectrum kept for display.
pub struct SpectrumCanvas {
    spectrum: Vec<i32>,
    sample_rate: u32,
}

/// What a spectrum canvas holds, as plain values.
pub struct SpectrumState {
    /// Level of each positive-frequency bin, in hundredths of a decibel.
    pub spectrum: Seq<i32>,
    pub sample_rate: u32,
}

impl View for SpectrumCanvas {
    type V = SpectrumState;

    closed spec fn view(&self) -> SpectrumState {
        SpectrumState { spectrum: self.spectrum@, sample_rate: self.sample_rate }
    }
}

impl SpectrumCanvas {
    #[verifier::type_invariant]
    spec fn above_floor(&self) -> bool {
        forall|i: int| 0 <= i < self.spectrum@.len() ==> #[trigger] self.spectrum@[i] >= SPECTRUM_FLOOR
    }

    /// A canvas without a spectrum, at the default sample rate.
    pub fn new() -> (canvas: Self)
        ensures
            canvas@.spectrum.len() == 0,
            canvas@.sample_rate == DEFAULT_SAMPLE_RATE,
    {
        SpectrumCanvas { spectrum: Vec::new(), sample_rate: DEFAULT_SAMPLE_RATE }
    }

    /// Keeps the spectrum of a transform: of the level of each of its bins,
    /// in hundredths of a decibel, the first half, which are the positive
    /// frequencies, each raised to the floor where it is below it.
    pub fn update_spectrum(&mut self, levels: &[i32], sample_rate: u32)
        ensures
            final(self)@.spectrum == positive_half(levels@),
            final(self)@.sample_rate == sample_rate,
    {
        let half = levels.len() / 2;
        let mut kept: Vec<i32> = Vec::new();
        let mut i: usize = 0;
        while i < half
            invariant
                i <= half,
                half == levels@.len() / 2,
                kept@.len() == i,
                forall|k: int| 0 <= k < i ==> #[trigger] kept@[k] == floored(levels@[k]),
            decreases half - i,
        {
            let level = levels[i];
            if level < SPECTRUM_FLOOR {
                kept.push(SPECTRUM_FLOOR);
            } else {
                kept.push(level);
            }
            i += 1;
        }
        assert(kept@ =~= positive_half(levels@));
        proof {
            use_type_invariant(&*self);
        }
        self.sample_rate = sample_rate;
        self.spectrum = kept;
    }

    /// Level of each positive-frequency bin, in hundredths of a decibel.
    /// None is below the floor.
    pub fn spectrum(&self) -> (levels: &Vec<i32>)
        ensures
            levels@ == self@.spectrum,
            forall|i: int| 0 <= i < levels@.len() ==> #[trigger] levels@[i] >= SPECTRUM_FLOOR,
    {
        proof {
            use_type_invariant(self);
        }
        &self.spectrum
    }

    /// Sample rate of the samples that the spectrum was taken from, in hertz.
    pub fn sample_rate(&self) -> (rate: u32)
        ensures
            rate == self@.sample_rate,
    {
        self.sample_rate
    }
}

} // verus!
