//! The detector: windows in, reports out.
//!
//! The transform of a window works on real numbers and is not done here.
//! Whoever runs it hands this module the spectrum of each window as integer
//! magnitudes, one per bin, on any scale that keeps their order; bins from
//! half the transform length on are not looked at. The module says which
//! window comes next, tests each spectrum, and keeps a report of every window
//! that holds a target tone.

use vstd::prelude::*;
use crate::audio::{condense_channels, condensed, AudioHeader, RawWav};
use crate::error::AnalysisError;
use crate::framing::{
    default_fft_size, lemma_window_fits, lemma_window_length, plannable, window_length, WindowPlan,
    FFT_SIZE,
};
use crate::peaks::is_flat;
use crate::tones::{
    classify_window, lemma_flat_spectrum_flags, low_bin_rings, retained, window_flags, ToneFlags,
};

verus! {

/// A point in time: whole seconds and the thousandths beyond them, rounded
/// down.
#[derive(Clone, Copy, Debug, PartialEq, Eq, Structural)]
pub struct Seconds {
    pub whole: usize,
    pub millis: u16,
}

impl Seconds {
    /// The time at which sample `sample` is played at `rate` samples per second.
    pub open spec fn of(sample: int, rate: int) -> Seconds {
        Seconds { whole: (sample / rate) as usize, millis: ((sample % rate) * 1000 / rate) as u16 }
    }

    /// Computes the time at which sample `sample` is played.
    pub fn at(sample: usize, rate: u32) -> (t: Seconds)
        requires
            rate > 0,
        ensures
            t == Seconds::of(sample as int, rate as int),
            t.millis < 1000,
    {
        let wide_sample: u128 = sample as u128;
        let wide_rate: u128 = rate as u128;
        let whole: u128 = wide_sample / wide_rate;
        let rest: u128 = wide_sample % wide_rate;
        assert((rest * 1000) as int / (wide_rate as int) < 1000 && rest * 1000 < 0x1_0000_0000
            * 1000) by (nonlinear_arith)
            requires
                0 <= rest < wide_rate,
                wide_rate <= 0xffff_ffff,
        ;
        let millis: u128 = rest * 1000 / wide_rate;
        Seconds { whole: whole as usize, millis: millis as u16 }
    }

    /// The whole minutes of this time.
    pub fn minutes(&self) -> (m: usize)
        ensures
            m == self.whole / 60,
    {
        self.whole / 60
    }

    /// The whole seconds beyond the whole minutes.
    pub fn seconds_of_minute(&self) -> (s: u8)
        ensures
            s == self.whole % 60,
    {
        (self.whole % 60) as u8
    }
}

/// The report of one window that holds a target tone.
#[derive(Clone, Copy, Debug, PartialEq, Eq, Structural)]
pub struct EasEvent {
    /// First sample of the window.
    pub start_sample: usize,
    /// First sample after the window.
    pub end_sample: usize,
    /// Time of the first sample.
    pub start_seconds: Seconds,
    /// Time of the first sample after the window.
    pub end_seconds: Seconds,
    /// The window holds the attention tone.
    pub has_weather: bool,
    /// The window holds both header tones.
    pub has_eas: bool,
}

impl EasEvent {
    /// This report with both of its times moved later by `offset` whole
    /// seconds, the time code at which the recording began. The samples stay
    /// as they are.
    pub open spec fn moved(self, offset: int) -> EasEvent {
        EasEvent {
            start_seconds: Seconds {
                whole: (self.start_seconds.whole + offset) as usize,
                millis: self.start_seconds.millis,
            },
            end_seconds: Seconds {
                whole: (self.end_seconds.whole + offset) as usize,
                millis: self.end_seconds.millis,
            },
            ..self
        }
    }

    /// Moves both times of the report later by `offset` whole seconds.
    /// Returns `None` where a moved time would not fit the machine.
    pub fn shifted(&self, offset: usize) -> (r: Option<EasEvent>)
        ensures
            r is Some <==> self.start_seconds.whole + offset <= usize::MAX
                && self.end_seconds.whole + offset <= usize::MAX,
            r is Some ==> r->Some_0 == self.moved(offset as int),
    {
        if self.start_seconds.whole > usize::MAX - offset || self.end_seconds.whole > usize::MAX
            - offset {
            return None;
        }
        Some(
            EasEvent {
                start_sample: self.start_sample,
                end_sample: self.end_sample,
                start_seconds: Seconds {
                    whole: self.start_seconds.whole + offset,
                    millis: self.start_seconds.millis,
                },
                end_seconds: Seconds {
                    whole: self.end_seconds.whole + offset,
                    millis: self.end_seconds.millis,
                },
                has_weather: self.has_weather,
                has_eas: self.has_eas,
            },
        )
    }
}

/// The outcome of one analysis.
#[derive(Debug)]
pub struct AnalysisInfo {
    /// Length of one window, in samples.
    pub sample_size: usize,
    /// Length of one transform.
    pub fft_size: usize,
    /// Samples per second.
    pub sample_rate: usize,
    /// The reported windows, in the order of their start.
    pub eas: Vec<EasEvent>,
}

/// The report of window `k`, whose flags are `flags`.
pub open spec fn event_at(plan: WindowPlan, k: int, flags: ToneFlags) -> EasEvent {
    let start = k * plan.step;
    let end = start + plan.sample_size;
    EasEvent {
        start_sample: start as usize,
        end_sample: end as usize,
        start_seconds: Seconds::of(start, plan.sample_rate as int),
        end_seconds: Seconds::of(end, plan.sample_rate as int),
        has_weather: flags.weather(),
        has_eas: flags.eas(),
    }
}

/// The reports of the first `n` windows, of which `spectra` holds the
/// spectra in order: one report for each window that holds a target tone.
pub open spec fn detected(plan: WindowPlan, spectra: Seq<Seq<i64>>, n: int) -> Seq<EasEvent>
    decreases n,
{
    if n <= 0 {
        Seq::empty()
    } else {
        let earlier = detected(plan, spectra, n - 1);
        let flags = window_flags(spectra[n - 1], plan.sample_rate as int, plan.fft_size as int);
        if flags.flagged() {
            earlier.push(event_at(plan, n - 1, flags))
        } else {
            earlier
        }
    }
}

/// The magnitudes of each spectrum.
pub open spec fn views(spectra: Seq<Vec<i64>>) -> Seq<Seq<i64>> {
    spectra.map_values(|v: Vec<i64>| v@)
}

/// The state of an analysis between two windows.
#[derive(Debug)]
pub struct Detector {
    /// The sizes in use.
    pub plan: WindowPlan,
    /// Length of the mono signal, in samples.
    pub total: usize,
    /// Number of windows already tested.
    pub done: usize,
    /// The reports so far.
    pub events: Vec<EasEvent>,
}

impl Detector {
    /// The state is one that an analysis can be in.
    pub open spec fn wf(&self) -> bool {
        &&& self.plan.wf()
        &&& self.done <= self.plan.count(self.total as int)
    }

    /// Windows are left to test.
    pub open spec fn pending(&self) -> bool {
        self.done < self.plan.count(self.total as int)
    }

    /// Starts an analysis of a mono signal of `total` samples.
    pub fn new(sample_rate: u32, fft_size: usize, total: usize) -> (r: Result<
        Detector,
        AnalysisError,
    >)
        ensures
            r is Ok <==> plannable(sample_rate as int, fft_size as int),
            r is Err ==> r->Err_0 == AnalysisError::InvalidHeader,
            r is Ok ==> {
                let d = r->Ok_0;
                &&& d.wf()
                &&& d.plan.sample_rate == sample_rate
                &&& d.plan.fft_size == fft_size
                &&& d.total == total
                &&& d.done == 0
                &&& d.events@ == Seq::<EasEvent>::empty()
            },
    {
        match WindowPlan::new(sample_rate, fft_size) {
            Ok(plan) => Ok(Detector { plan, total, done: 0, events: Vec::new() }),
            Err(e) => Err(e),
        }
    }

    /// The first sample of the window to transform next, or `None` when
    /// every window has been tested.
    pub fn next_window(&self) -> (start: Option<usize>)
        requires
            self.wf(),
        ensures
            start is Some <==> self.pending(),
            start is Some ==> start->Some_0 == self.done * self.plan.step && start->Some_0
                + self.plan.sample_size <= self.total,
    {
        self.plan.window_start(self.done, self.total)
    }

    /// Takes the spectrum of the window that `next_window` named, tests it,
    /// and reports the window if it holds a target tone. Returns the flags
    /// of the window, or `None`, with nothing changed, when no window was
    /// left.
    pub fn record(&mut self, spectrum: &Vec<i64>) -> (r: Option<ToneFlags>)
        requires
            old(self).wf(),
        ensures
            final(self).wf(),
            final(self).plan == old(self).plan,
            final(self).total == old(self).total,
            r is Some <==> old(self).pending(),
            !old(self).pending() ==> *final(self) == *old(self),
            old(self).pending() ==> {
                let flags = window_flags(
                    spectrum@,
                    old(self).plan.sample_rate as int,
                    old(self).plan.fft_size as int,
                );
                &&& r == Some(flags)
                &&& final(self).done == old(self).done + 1
                &&& final(self).events@ == if flags.flagged() {
                    old(self).events@.push(event_at(old(self).plan, old(self).done as int, flags))
                } else {
                    old(self).events@
                }
            },
    {
        let start: usize = match self.plan.window_start(self.done, self.total) {
            Some(s) => s,
            None => {
                return None;
            },
        };
        let flags = classify_window(spectrum, self.plan.sample_rate, self.plan.fft_size);
        if flags.is_flagged() {
            let end: usize = start + self.plan.sample_size;
            self.events.push(
                EasEvent {
                    start_sample: start,
                    end_sample: end,
                    start_seconds: Seconds::at(start, self.plan.sample_rate),
                    end_seconds: Seconds::at(end, self.plan.sample_rate),
                    has_weather: flags.has_weather(),
                    has_eas: flags.has_eas(),
                },
            );
        }
        self.done = self.done + 1;
        Some(flags)
    }

    /// Ends the analysis and hands out what it found.
    pub fn finish(self) -> (info: AnalysisInfo)
        ensures
            info.sample_size == self.plan.sample_size,
            info.fft_size == self.plan.fft_size,
            info.sample_rate == self.plan.sample_rate,
            info.eas@ == self.events@,
    {
        AnalysisInfo {
            sample_size: self.plan.sample_size,
            fft_size: self.plan.fft_size,
            sample_rate: self.plan.sample_rate as usize,
            eas: self.events,
        }
    }
}

/// The number of windows that an analysis of `mono` samples tests when it
/// is given `supplied` spectra: every window that has a spectrum.
pub open spec fn tested(plan: WindowPlan, mono: int, supplied: int) -> int {
    if supplied < plan.count(mono) {
        supplied
    } else {
        plan.count(mono)
    }
}

/// The sizes that govern an analysis at `sample_rate` samples per second
/// with the default transform length.
pub open spec fn default_plan(sample_rate: u32) -> WindowPlan {
    WindowPlan {
        sample_rate,
        fft_size: FFT_SIZE,
        sample_size: window_length(sample_rate as int, FFT_SIZE as int) as usize,
        step: (window_length(sample_rate as int, FFT_SIZE as int) / 8) as usize,
    }
}

/// `info` is the analysis of the recording `data` with header `header`,
/// the spectra of its windows being `spectra`.
pub open spec fn is_analysis_of(
    info: AnalysisInfo,
    header: AudioHeader,
    data: Seq<i32>,
    spectra: Seq<Seq<i64>>,
) -> bool {
    let plan = default_plan(header.sample_rate);
    let mono = condensed(header.channel_count, data).len() as int;
    &&& info.sample_rate == header.sample_rate
    &&& info.fft_size == plan.fft_size
    &&& info.sample_size == plan.sample_size
    &&& info.eas@ == detected(plan, spectra, tested(plan, mono, spectra.len() as int))
}

/// Analyses a decoded recording, given the spectra of its windows.
///
/// The recording is reduced to one channel and windows are laid out over
/// it with the default transform length. `spectra[k]` is taken as the
/// spectrum of window `k`; spectra beyond the last window are ignored, and
/// a window without a spectrum is not tested. A channel count other than one
/// or two is refused first, a sample rate of zero second, both before any
/// window is looked at.
pub fn process_wav(header: AudioHeader, data: RawWav, spectra: &Vec<Vec<i64>>) -> (r: Result<
    AnalysisInfo,
    AnalysisError,
>)
    ensures
        r is Ok <==> (header.channel_count == 1 || header.channel_count == 2) && header.sample_rate
            > 0,
        r is Err ==> r->Err_0 == (if header.channel_count == 1 || header.channel_count == 2 {
            AnalysisError::InvalidHeader
        } else {
            AnalysisError::UnsupportedChannelLayout
        }),
        r is Ok ==> is_analysis_of(r->Ok_0, header, data@, views(spectra@)),
{
    let ghost raw = data@;
    let mono = match condense_channels(header.channel_count, data) {
        Ok(m) => m,
        Err(e) => {
            return Err(e);
        },
    };
    proof {
        lemma_window_length(header.sample_rate as int, FFT_SIZE as int);
    }
    let mut detector = match Detector::new(header.sample_rate, default_fft_size(), mono.len()) {
        Ok(d) => d,
        Err(e) => {
            return Err(e);
        },
    };
    let ghost plan = detector.plan;
    let mut k: usize = 0;
    while k < spectra.len() && detector.next_window().is_some()
        invariant
            detector.wf(),
            detector.plan == plan,
            detector.total == mono.len(),
            detector.done == k,
            k <= spectra.len(),
            detector.events@ == detected(plan, views(spectra@), k as int),
        decreases spectra.len() - k,
    {
        assert(views(spectra@)[k as int] == spectra@[k as int]@);
        detector.record(&spectra[k]);
        k += 1;
    }
    Ok(detector.finish())
}

/// Runs the detector on one recording: the analysis that `process_wav`
/// gives for it.
pub fn test_fft(header: AudioHeader, data: RawWav, spectra: &Vec<Vec<i64>>) -> (r: Result<
    AnalysisInfo,
    AnalysisError,
>)
    ensures
        r is Ok <==> (header.channel_count == 1 || header.channel_count == 2) && header.sample_rate
            > 0,
        r is Err ==> r->Err_0 == (if header.channel_count == 1 || header.channel_count == 2 {
            AnalysisError::InvalidHeader
        } else {
            AnalysisError::UnsupportedChannelLayout
        }),
        r is Ok ==> is_analysis_of(r->Ok_0, header, data@, views(spectra@)),
{
    process_wav(header, data, spectra)
}

/// The reports come in the order of their windows: each starts later than
/// the one before it. Each spans one window, and none reaches beyond the
/// signal.
pub proof fn lemma_events_ascend(plan: WindowPlan, spectra: Seq<Seq<i64>>, n: int, total: usize)
    requires
        plan.wf(),
        0 <= n <= plan.count(total as int),
    ensures
        detected(plan, spectra, n).len() <= n,
        forall|a: int|
            0 <= a < detected(plan, spectra, n).len() ==> {
                let e = #[trigger] detected(plan, spectra, n)[a];
                &&& e.end_sample == e.start_sample + plan.sample_size
                &&& e.end_sample <= total
                &&& e.start_sample <= (n - 1) * plan.step
                &&& e.has_eas || e.has_weather
            },
        forall|a: int, b: int|
            0 <= a < b < detected(plan, spectra, n).len() ==> detected(
                plan,
                spectra,
                n,
            )[a].start_sample < detected(plan, spectra, n)[b].start_sample,
    decreases n,
{
    if n > 0 {
        lemma_events_ascend(plan, spectra, n - 1, total);
        lemma_window_fits(plan, n - 1, total as int);
        let step = plan.step as int;
        assert((n - 2) * step < (n - 1) * step) by (nonlinear_arith)
            requires
                step > 0,
        ;
        let earlier = detected(plan, spectra, n - 1);
        assert forall|a: int| 0 <= a < earlier.len() implies (#[trigger] earlier[a]).start_sample
            < (n - 1) * step by {}
    }
}

/// Spectra in which every bin has the same magnitude, as silence gives
/// them, lead to no report, unless the sample rate is so high that one of
/// the first five bins lies in the band of the attention tone.
pub proof fn lemma_silence_detects_nothing(plan: WindowPlan, spectra: Seq<Seq<i64>>, n: int)
    requires
        plan.wf(),
        0 <= n <= spectra.len(),
        forall|k: int|
            0 <= k < n ==> is_flat(#[trigger] spectra[k]) && spectra[k].len() <= usize::MAX
                && !low_bin_rings(
                retained(spectra[k], plan.fft_size as int).len() as int,
                plan.sample_rate as int,
                plan.fft_size as int,
            ),
    ensures
        detected(plan, spectra, n) == Seq::<EasEvent>::empty(),
    decreases n,
{
    if n > 0 {
        lemma_silence_detects_nothing(plan, spectra, n - 1);
        lemma_flat_spectrum_flags(spectra[n - 1], plan.sample_rate as int, plan.fft_size as int);
    }
}

/// A recording shorter than one window is analysed without error and
/// without a report.
pub proof fn lemma_short_recording(
    info: AnalysisInfo,
    header: AudioHeader,
    data: Seq<i32>,
    spectra: Seq<Seq<i64>>,
)
    requires
        is_analysis_of(info, header, data, spectra),
        condensed(header.channel_count, data).len() < info.sample_size,
    ensures
        info.eas@ == Seq::<EasEvent>::empty(),
{
}

/// Two analyses of the same recording with the same spectra agree in
/// every size and report the same windows in the same order.
pub proof fn lemma_same_input_same_analysis(
    first: AnalysisInfo,
    second: AnalysisInfo,
    header: AudioHeader,
    data: Seq<i32>,
    spectra: Seq<Seq<i64>>,
)
    requires
        is_analysis_of(first, header, data, spectra),
        is_analysis_of(second, header, data, spectra),
    ensures
        first.eas@ == second.eas@,
        first.sample_size == second.sample_size,
        first.fft_size == second.fft_size,
        first.sample_rate == second.sample_rate,
{
}

} // verus!
