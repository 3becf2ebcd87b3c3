//! The three target tones and the test of a window's strongest bins
//! against them.
//!
//! Bin `i` of a transform of `fft_size` points taken at `sample_rate` samples
//! per second stands for the frequency `i * sample_rate / fft_size` Hz. The
//! tests below compare that quotient with a target exactly, by multiplying
//! out the division.
//!
//! The signal is real, so the upper half of its spectrum mirrors the lower
//! half: only the bins below `fft_size / 2` are looked at.

use vstd::prelude::*;
use crate::peaks::{
    is_flat, leading, lemma_flat_ranking, lemma_ranking_keeps_under_rescaling, ranking, same_order,
    top_bins_within, PEAK_COUNT,
};

verus! {

/// The lower tone of the two-tone alert header, in Hz.
pub const EAS_LOW_HZ: u32 = 853;

/// The upper tone of the two-tone alert header, in Hz.
pub const EAS_HIGH_HZ: u32 = 960;

/// The weather-radio attention tone, in Hz.
pub const WEATHER_HZ: u32 = 1050;

/// How far, in Hz, a bin may lie from a header tone and still count.
pub const EAS_TOLERANCE_HZ: u32 = 10;

/// How far, in Hz, a bin may lie from the attention tone and still count.
pub const WEATHER_TOLERANCE_HZ: u32 = 4;

/// The frequency of bin `bin` lies less than `tolerance` Hz from `target`.
pub open spec fn near(bin: int, sample_rate: int, fft_size: int, target: int, tolerance: int) -> bool {
    let offset = bin * sample_rate - target * fft_size;
    -(tolerance * fft_size) < offset < tolerance * fft_size
}

/// One of `picks` lies less than `tolerance` Hz from `target`.
pub open spec fn any_near(
    picks: Seq<usize>,
    sample_rate: int,
    fft_size: int,
    target: int,
    tolerance: int,
) -> bool {
    exists|a: int|
        0 <= a < picks.len() && near(
            #[trigger] picks[a] as int,
            sample_rate,
            fft_size,
            target,
            tolerance,
        )
}

/// Which target tones the strongest bins of one window hold.
#[derive(Clone, Copy, Debug, PartialEq, Eq, Structural)]
pub struct ToneFlags {
    pub has_853: bool,
    pub has_960: bool,
    pub has_1050: bool,
}

impl ToneFlags {
    /// Both header tones are present.
    pub open spec fn eas(self) -> bool {
        self.has_853 && self.has_960
    }

    /// The attention tone is present.
    pub open spec fn weather(self) -> bool {
        self.has_1050
    }

    /// The window is reported: it holds the header or the attention tone.
    pub open spec fn flagged(self) -> bool {
        self.eas() || self.weather()
    }

    pub fn has_eas(&self) -> (r: bool)
        ensures
            r == self.eas(),
    {
        self.has_853 && self.has_960
    }

    pub fn has_weather(&self) -> (r: bool)
        ensures
            r == self.weather(),
    {
        self.has_1050
    }

    pub fn is_flagged(&self) -> (r: bool)
        ensures
            r == self.flagged(),
    {
        (self.has_853 && self.has_960) || self.has_1050
    }
}

/// The flags that the bins `picks` give.
pub open spec fn flags_of(picks: Seq<usize>, sample_rate: int, fft_size: int) -> ToneFlags {
    ToneFlags {
        has_853: any_near(
            picks,
            sample_rate,
            fft_size,
            EAS_LOW_HZ as int,
            EAS_TOLERANCE_HZ as int,
        ),
        has_960: any_near(
            picks,
            sample_rate,
            fft_size,
            EAS_HIGH_HZ as int,
            EAS_TOLERANCE_HZ as int,
        ),
        has_1050: any_near(
            picks,
            sample_rate,
            fft_size,
            WEATHER_HZ as int,
            WEATHER_TOLERANCE_HZ as int,
        ),
    }
}

/// The bins of a spectrum that are looked at: the lower half of the
/// transform.
pub open spec fn retained(mags: Seq<i64>, fft_size: int) -> Seq<i64> {
    leading(mags, fft_size / 2)
}

/// The flags of a window whose spectrum is `mags`: those of the five
/// strongest of its retained bins.
pub open spec fn window_flags(mags: Seq<i64>, sample_rate: int, fft_size: int) -> ToneFlags {
    flags_of(ranking(retained(mags, fft_size), PEAK_COUNT as nat), sample_rate, fft_size)
}

/// Tells whether the frequency of bin `bin` lies less than `tolerance` Hz
/// from `target`.
pub fn is_near(bin: usize, sample_rate: u32, fft_size: usize, target: u32, tolerance: u32) -> (r:
    bool)
    ensures
        r == near(bin as int, sample_rate as int, fft_size as int, target as int, tolerance as int),
{
    let wide_bin: i128 = bin as i128;
    let wide_rate: i128 = sample_rate as i128;
    let wide_size: i128 = fft_size as i128;
    let wide_target: i128 = target as i128;
    let wide_tolerance: i128 = tolerance as i128;
    assert(0 <= wide_bin * wide_rate <= 0xffff_ffff_ffff_ffff * 0xffff_ffff) by (nonlinear_arith)
        requires
            0 <= wide_bin <= 0xffff_ffff_ffff_ffff,
            0 <= wide_rate <= 0xffff_ffff,
    ;
    assert(0 <= wide_target * wide_size <= 0xffff_ffff * 0xffff_ffff_ffff_ffff)
        by (nonlinear_arith)
        requires
            0 <= wide_size <= 0xffff_ffff_ffff_ffff,
            0 <= wide_target <= 0xffff_ffff,
    ;
    assert(0 <= wide_tolerance * wide_size <= 0xffff_ffff * 0xffff_ffff_ffff_ffff)
        by (nonlinear_arith)
        requires
            0 <= wide_size <= 0xffff_ffff_ffff_ffff,
            0 <= wide_tolerance <= 0xffff_ffff,
    ;
    let offset: i128 = wide_bin * wide_rate - wide_target * wide_size;
    let reach: i128 = wide_tolerance * wide_size;
    -reach < offset && offset < reach
}

/// Tests the bins `picks` against the three target tones.
pub fn classify_peaks(picks: &Vec<usize>, sample_rate: u32, fft_size: usize) -> (flags: ToneFlags)
    ensures
        flags == flags_of(picks@, sample_rate as int, fft_size as int),
{
    let mut has_853 = false;
    let mut has_960 = false;
    let mut has_1050 = false;
    let mut i: usize = 0;
    while i < picks.len()
        invariant
            i <= picks.len(),
            (ToneFlags { has_853, has_960, has_1050 }) == flags_of(
                picks@.take(i as int),
                sample_rate as int,
                fft_size as int,
            ),
        decreases picks.len() - i,
    {
        let bin: usize = picks[i];
        let low = is_near(bin, sample_rate, fft_size, EAS_LOW_HZ, EAS_TOLERANCE_HZ);
        let high = is_near(bin, sample_rate, fft_size, EAS_HIGH_HZ, EAS_TOLERANCE_HZ);
        let weather = is_near(bin, sample_rate, fft_size, WEATHER_HZ, WEATHER_TOLERANCE_HZ);
        proof {
            let rate = sample_rate as int;
            let size = fft_size as int;
            let tolerance = EAS_TOLERANCE_HZ as int;
            lemma_any_near_grows(picks@, i as int, rate, size, EAS_LOW_HZ as int, tolerance);
            lemma_any_near_grows(picks@, i as int, rate, size, EAS_HIGH_HZ as int, tolerance);
            lemma_any_near_grows(
                picks@,
                i as int,
                rate,
                size,
                WEATHER_HZ as int,
                WEATHER_TOLERANCE_HZ as int,
            );
        }
        has_853 = has_853 || low;
        has_960 = has_960 || high;
        has_1050 = has_1050 || weather;
        i += 1;
    }
    assert(picks@.take(picks.len() as int) =~= picks@);
    ToneFlags { has_853, has_960, has_1050 }
}

proof fn lemma_any_near_grows(
    picks: Seq<usize>,
    i: int,
    sample_rate: int,
    fft_size: int,
    target: int,
    tolerance: int,
)
    requires
        0 <= i < picks.len(),
    ensures
        any_near(picks.take(i + 1), sample_rate, fft_size, target, tolerance) == (any_near(
            picks.take(i),
            sample_rate,
            fft_size,
            target,
            tolerance,
        ) || near(picks[i] as int, sample_rate, fft_size, target, tolerance)),
{
    let short = picks.take(i);
    let long = picks.take(i + 1);
    if any_near(short, sample_rate, fft_size, target, tolerance) {
        let a = choose|a: int|
            0 <= a < short.len() && near(
                #[trigger] short[a] as int,
                sample_rate,
                fft_size,
                target,
                tolerance,
            );
        assert(long[a] == short[a]);
    }
    if near(picks[i] as int, sample_rate, fft_size, target, tolerance) {
        assert(long[i] == picks[i]);
    }
    if any_near(long, sample_rate, fft_size, target, tolerance) {
        let a = choose|a: int|
            0 <= a < long.len() && near(
                #[trigger] long[a] as int,
                sample_rate,
                fft_size,
                target,
                tolerance,
            );
        if a < i {
            assert(short[a] == long[a]);
        }
    }
}

/// Ranks the retained bins of one window's spectrum and tests the five
/// strongest against the three target tones.
pub fn classify_window(spectrum: &Vec<i64>, sample_rate: u32, fft_size: usize) -> (flags: ToneFlags)
    ensures
        flags == window_flags(spectrum@, sample_rate as int, fft_size as int),
{
    let picks = top_bins_within(spectrum, fft_size / 2, PEAK_COUNT);
    classify_peaks(&picks, sample_rate, fft_size)
}

/// One of the first five of `bins` bins lies in the band of the attention
/// tone. At 8192 points this takes a sample rate of over two million Hz.
pub open spec fn low_bin_rings(bins: int, sample_rate: int, fft_size: int) -> bool {
    exists|a: int| 0 <= a < 5 && a < bins && #[trigger] near(a, sample_rate, fft_size, 1050, 4)
}

proof fn lemma_small_multiple(a: int, x: int)
    requires
        0 <= a <= 4,
    ensures
        a * x == 0 || a * x == x || a * x == 2 * x || a * x == 3 * x || a * x == 4 * x,
{
    assert(a * x == 0 || a * x == x || a * x == 2 * x || a * x == 3 * x || a * x == 4 * x)
        by (nonlinear_arith)
        requires
            a == 0 || a == 1 || a == 2 || a == 3 || a == 4,
    ;
}

/// A spectrum in which every bin has the same magnitude, that of silence,
/// never shows the header, and shows the attention tone only where one of
/// its first five bins lies in that tone's band.
pub proof fn lemma_flat_spectrum_flags(mags: Seq<i64>, sample_rate: int, fft_size: int)
    requires
        is_flat(mags),
        mags.len() <= usize::MAX,
        0 < sample_rate,
        0 < fft_size,
    ensures
        !window_flags(mags, sample_rate, fft_size).eas(),
        window_flags(mags, sample_rate, fft_size).flagged() == low_bin_rings(
            retained(mags, fft_size).len() as int,
            sample_rate,
            fft_size,
        ),
{
    let kept = retained(mags, fft_size);
    assert(is_flat(kept)) by {
        assert forall|i: int, j: int| 0 <= i < kept.len() && 0 <= j < kept.len() implies kept[i]
            == kept[j] by {
            assert(kept[i] == mags[i] && kept[j] == mags[j]);
        }
    }
    lemma_flat_ranking(kept, 5);
    let picks = ranking(kept, 5);
    let flags = window_flags(mags, sample_rate, fft_size);
    if flags.has_853 && flags.has_960 {
        let a = choose|a: int|
            0 <= a < picks.len() && near(#[trigger] picks[a] as int, sample_rate, fft_size, 853, 10);
        let b = choose|b: int|
            0 <= b < picks.len() && near(#[trigger] picks[b] as int, sample_rate, fft_size, 960, 10);
        assert(picks[a] as int == a && picks[b] as int == b);
        lemma_small_multiple(a, sample_rate);
        lemma_small_multiple(b, sample_rate);
    }
    if flags.has_1050 {
        let a = choose|a: int|
            0 <= a < picks.len() && near(#[trigger] picks[a] as int, sample_rate, fft_size, 1050, 4);
        assert(near(a, sample_rate, fft_size, 1050, 4));
    }
    if low_bin_rings(kept.len() as int, sample_rate, fft_size) {
        let a = choose|a: int|
            0 <= a < 5 && a < kept.len() && #[trigger] near(a, sample_rate, fft_size, 1050, 4);
        assert(near(picks[a] as int, sample_rate, fft_size, 1050, 4));
    }
}

/// At a transform length of 8192 points no sample rate up to two million
/// Hz puts one of the first five bins into the band of the attention tone.
pub proof fn lemma_common_rates_are_quiet(bins: int, sample_rate: int)
    requires
        0 < sample_rate <= 2_000_000,
    ensures
        !low_bin_rings(bins, sample_rate, 8192),
{
    if low_bin_rings(bins, sample_rate, 8192) {
        let a = choose|a: int|
            0 <= a < 5 && a < bins && #[trigger] near(a, sample_rate, 8192, 1050, 4);
        lemma_small_multiple(a, sample_rate);
    }
}

/// A bin near a target has, rounded down to whole Hz, a frequency within
/// the tolerance of the target.
pub proof fn lemma_near_is_close(
    bin: int,
    sample_rate: int,
    fft_size: int,
    target: int,
    tolerance: int,
)
    requires
        fft_size > 0,
        near(bin, sample_rate, fft_size, target, tolerance),
    ensures
        target - tolerance <= (bin * sample_rate) / fft_size < target + tolerance,
{
    let product = bin * sample_rate;
    assert(target - tolerance <= product / fft_size < target + tolerance) by (nonlinear_arith)
        requires
            fft_size > 0,
            -(tolerance * fft_size) < product - target * fft_size < tolerance * fft_size,
    ;
}

/// The flags of a window depend on the order of its magnitudes alone:
/// scaling a spectrum in any way that keeps the order keeps the flags.
pub proof fn lemma_flags_keep_under_rescaling(
    mags: Seq<i64>,
    keys: Seq<i64>,
    sample_rate: int,
    fft_size: int,
)
    requires
        same_order(mags, keys),
        mags.len() <= usize::MAX,
    ensures
        window_flags(mags, sample_rate, fft_size) == window_flags(keys, sample_rate, fft_size),
{
    let kept = retained(mags, fft_size);
    let kept_keys = retained(keys, fft_size);
    assert(same_order(kept, kept_keys)) by {
        assert forall|i: int, j: int| 0 <= i < kept.len() && 0 <= j < kept.len() implies ((
        #[trigger] kept[i] < #[trigger] kept[j]) == (kept_keys[i] < kept_keys[j])) by {
            assert(kept[i] == mags[i] && kept[j] == mags[j]);
            assert(kept_keys[i] == keys[i] && kept_keys[j] == keys[j]);
            assert((mags[i] < mags[j]) == (keys[i] < keys[j]));
        }
    }
    lemma_ranking_keeps_under_rescaling(kept, kept_keys, PEAK_COUNT as nat);
}

} // verus!
