//! The layout of the analysis windows over a mono signal.
//!
//! A window is a whole number of transform lengths, just over half a second
//! long. Consecutive windows start an eighth of a window apart, and a window
//! is laid out only where it fits into the signal whole.

use vstd::prelude::*;
use crate::error::AnalysisError;

verus! {

/// The bandwidth, in Hz, that the transform is sized for.
pub const BANDWIDTH: u32 = 8000;

/// The length of one transform that the detector uses by default.
pub const FFT_SIZE: usize = 8192;

/// Consecutive windows start this fraction of a window apart.
pub const OVERLAP: usize = 8;

/// `n` is a power of two.
pub open spec fn is_power_of_two(n: int) -> bool
    decreases n,
{
    n == 1 || (n > 1 && n % 2 == 0 && is_power_of_two(n / 2))
}

/// The smallest power of two that is not below `n`.
pub fn next_power_of_two(n: u32) -> (p: u64)
    ensures
        is_power_of_two(p as int),
        n <= p,
        p == 1 || p / 2 < n,
{
    let mut p: u64 = 1;
    while p < n as u64
        invariant
            is_power_of_two(p as int),
            p >= 1,
            p == 1 || p / 2 < n,
        decreases 0x2_0000_0000 - p,
    {
        p = p * 2;
    }
    p
}

/// Of two powers of two the smaller is at most half the larger.
pub proof fn lemma_powers_of_two_are_apart(small: int, large: int)
    requires
        is_power_of_two(small),
        is_power_of_two(large),
        small < large,
    ensures
        2 * small <= large,
    decreases large,
{
    if small > 1 {
        lemma_powers_of_two_are_apart(small / 2, large / 2);
    }
}

/// What `next_power_of_two` returns is the least power of two that is not
/// below its argument: no other power of two lies between the two.
pub proof fn lemma_next_power_is_least(n: int, p: int, other: int)
    requires
        is_power_of_two(p),
        n <= p,
        p == 1 || p / 2 < n,
        is_power_of_two(other),
        n <= other,
    ensures
        p <= other,
{
    if other < p {
        lemma_powers_of_two_are_apart(other, p);
    }
}

/// The length of a window, in samples.
pub open spec fn window_length(sample_rate: int, fft_size: int) -> int {
    ((sample_rate / 2) / fft_size + 1) * fft_size
}

/// The number of windows that fit into `total` samples.
pub open spec fn window_count(total: int, sample_size: int, step: int) -> int {
    if total < sample_size {
        0
    } else {
        (total - sample_size) / step + 1
    }
}

/// A header and a transform length from which windows can be laid out:
/// both are positive, the window length fits the machine, and an eighth of
/// it is at least one sample.
pub open spec fn plannable(sample_rate: int, fft_size: int) -> bool {
    &&& sample_rate > 0
    &&& fft_size > 0
    &&& 8 <= window_length(sample_rate, fft_size) <= usize::MAX
}

/// The sizes that govern one analysis.
#[derive(Clone, Copy, Debug, PartialEq, Eq, Structural)]
pub struct WindowPlan {
    /// Samples per second.
    pub sample_rate: u32,
    /// Length of one transform.
    pub fft_size: usize,
    /// Length of one window.
    pub sample_size: usize,
    /// Distance between the starts of consecutive windows.
    pub step: usize,
}

impl WindowPlan {
    /// The sizes belong together.
    pub open spec fn wf(self) -> bool {
        &&& plannable(self.sample_rate as int, self.fft_size as int)
        &&& self.sample_size == window_length(self.sample_rate as int, self.fft_size as int)
        &&& self.step == self.sample_size / OVERLAP
        &&& self.step > 0
    }

    /// The number of windows over a signal of `total` samples.
    pub open spec fn count(self, total: int) -> int {
        window_count(total, self.sample_size as int, self.step as int)
    }

    /// Lays out the windows for a sample rate and a transform length.
    pub fn new(sample_rate: u32, fft_size: usize) -> (r: Result<WindowPlan, AnalysisError>)
        ensures
            r is Ok <==> plannable(sample_rate as int, fft_size as int),
            r is Ok ==> r->Ok_0.wf() && r->Ok_0.sample_rate == sample_rate && r->Ok_0.fft_size
                == fft_size,
            r is Err ==> r->Err_0 == AnalysisError::InvalidHeader,
    {
        if sample_rate == 0 || fft_size == 0 {
            return Err(AnalysisError::InvalidHeader);
        }
        let frames: u128 = ((sample_rate / 2) as u128) / (fft_size as u128) + 1;
        assert(frames * (fft_size as u128) <= 0x8000_0000 * 0xffff_ffff_ffff_ffff)
            by (nonlinear_arith)
            requires
                0 <= frames <= 0x8000_0000,
                0 <= fft_size <= 0xffff_ffff_ffff_ffff,
        ;
        let length: u128 = frames * (fft_size as u128);
        if length < 8 || length > usize::MAX as u128 {
            return Err(AnalysisError::InvalidHeader);
        }
        let sample_size: usize = length as usize;
        Ok(WindowPlan { sample_rate, fft_size, sample_size, step: sample_size / OVERLAP })
    }

    /// Counts the windows over a signal of `total` samples.
    pub fn window_count(&self, total: usize) -> (n: usize)
        requires
            self.wf(),
        ensures
            n == self.count(total as int),
    {
        if total < self.sample_size {
            0
        } else {
            let n: usize = (total - self.sample_size) / self.step;
            assert(self.sample_size >= 8);
            n + 1
        }
    }

    /// The first sample of window `k` of a signal of `total` samples, if
    /// there is such a window.
    pub fn window_start(&self, k: usize, total: usize) -> (start: Option<usize>)
        requires
            self.wf(),
        ensures
            start is Some <==> k < self.count(total as int),
            start is Some ==> start->Some_0 == k * self.step && start->Some_0 + self.sample_size
                <= total,
    {
        if k >= self.window_count(total) {
            return None;
        }
        proof {
            lemma_window_fits(*self, k as int, total as int);
        }
        Some(k * self.step)
    }

    /// The samples of window `k` of the signal `mono`.
    pub open spec fn samples_of(self, mono: Seq<i32>, k: int) -> Seq<i32> {
        mono.subrange(k * self.step, k * self.step + self.sample_size)
    }

    /// Cuts window `k` out of the mono signal, if there is such a window.
    pub fn window(&self, mono: &Vec<i32>, k: usize) -> (w: Option<Vec<i32>>)
        requires
            self.wf(),
        ensures
            w is Some <==> k < self.count(mono.len() as int),
            w is Some ==> w->Some_0@ == self.samples_of(mono@, k as int),
    {
        let start: usize = match self.window_start(k, mono.len()) {
            Some(s) => s,
            None => {
                return None;
            },
        };
        let mut out: Vec<i32> = Vec::with_capacity(self.sample_size);
        let mut i: usize = 0;
        while i < self.sample_size
            invariant
                i <= self.sample_size,
                start + self.sample_size <= mono.len(),
                out@ == mono@.subrange(start as int, start + i),
            decreases self.sample_size - i,
        {
            out.push(mono[start + i]);
            assert(out@ =~= mono@.subrange(start as int, start + i + 1));
            i += 1;
        }
        Some(out)
    }
}

/// The transform length that the detector uses: the smallest power of two
/// that covers the bandwidth.
pub fn default_fft_size() -> (n: usize)
    ensures
        n == FFT_SIZE,
        is_power_of_two(n as int),
        BANDWIDTH <= n,
        n / 2 < BANDWIDTH,
{
    let p: u64 = next_power_of_two(BANDWIDTH);
    proof {
        reveal_with_fuel(is_power_of_two, 16);
    }
    p as usize
}

/// A window is a positive whole number of transform lengths, and longer
/// than half a second of samples.
pub proof fn lemma_window_length(sample_rate: int, fft_size: int)
    requires
        sample_rate >= 0,
        fft_size > 0,
    ensures
        window_length(sample_rate, fft_size) > 0,
        window_length(sample_rate, fft_size) % fft_size == 0,
        window_length(sample_rate, fft_size) > sample_rate / 2,
        window_length(sample_rate, fft_size) <= sample_rate / 2 + fft_size,
{
    let half = sample_rate / 2;
    let frames = half / fft_size + 1;
    assert(frames * fft_size % fft_size == 0 && frames * fft_size > half && frames * fft_size
        <= half + fft_size && frames * fft_size > 0) by (nonlinear_arith)
        requires
            frames == half / fft_size + 1,
            half >= 0,
            fft_size > 0,
    ;
}

/// Window `k` of a signal lies within the signal.
pub proof fn lemma_window_fits(plan: WindowPlan, k: int, total: int)
    requires
        plan.wf(),
        0 <= k < plan.count(total),
    ensures
        0 <= k * plan.step,
        k * plan.step + plan.sample_size <= total,
{
    let step = plan.step as int;
    let gap = total - plan.sample_size;
    assert(0 <= k * step <= gap) by (nonlinear_arith)
        requires
            0 <= k <= gap / step,
            step > 0,
            gap >= 0,
    ;
}

/// Windows are laid out as long as one fits: a window that started one
/// step after the last would reach beyond the signal.
pub proof fn lemma_no_further_window(plan: WindowPlan, total: int)
    requires
        plan.wf(),
        0 <= total,
    ensures
        plan.count(total) >= 0,
        plan.count(total) * plan.step + plan.sample_size > total,
{
    let step = plan.step as int;
    let gap = total - plan.sample_size;
    if gap >= 0 {
        assert((gap / step + 1) * step > gap) by (nonlinear_arith)
            requires
                step > 0,
                gap >= 0,
        ;
    } else {
        assert(0 * step == 0);
    }
}

/// A signal shorter than one window has no window.
pub proof fn lemma_short_signal_has_no_window(plan: WindowPlan, total: int)
    requires
        plan.wf(),
        0 <= total < plan.sample_size,
    ensures
        plan.count(total) == 0,
{
}

} // verus!
