//! Decoded audio as the detector takes it: interleaved integer samples and
//! the two header values that describe them.

use vstd::prelude::*;
use crate::error::AnalysisError;

verus! {

/// Decoded samples, interleaved by channel. A sample is a signed amplitude
/// on whatever integer scale the decoder chose.
pub type RawWav = Vec<i32>;

/// What the detector reads of a recording's header.
#[derive(Clone, Copy, Debug, PartialEq, Eq, Structural)]
pub struct AudioHeader {
    /// Samples per second and channel.
    pub sample_rate: u32,
    /// Number of interleaved channels.
    pub channel_count: u16,
}

/// The mean of a left and a right sample, rounded down.
pub open spec fn mean(left: i32, right: i32) -> i32 {
    ((left + right) / 2) as i32
}

/// The left sample of frame `i` of a stereo recording.
pub open spec fn left(v: Seq<i32>, i: int) -> i32 {
    v[2 * i]
}

/// The right sample of frame `i` of a stereo recording.
pub open spec fn right(v: Seq<i32>, i: int) -> i32 {
    v[2 * i + 1]
}

/// The mono signal of a stereo recording: the mean of each complete frame.
pub open spec fn stereo_mix(v: Seq<i32>) -> Seq<i32> {
    Seq::new((v.len() / 2) as nat, |i: int| mean(left(v, i), right(v, i)))
}

/// The mono signal of a recording with one or two channels.
pub open spec fn condensed(channel_count: u16, v: Seq<i32>) -> Seq<i32> {
    if channel_count == 1 {
        v
    } else {
        stereo_mix(v)
    }
}

/// Computes the mean of two samples, rounded down.
pub fn mix(left: i32, right: i32) -> (m: i32)
    ensures
        m == mean(left, right),
{
    let sum: i64 = left as i64 + right as i64;
    if sum >= 0 {
        (sum / 2) as i32
    } else {
        (-((1 - sum) / 2)) as i32
    }
}

/// Reduces interleaved samples to one channel.
///
/// One channel is handed back as it is. Two channels are averaged pair by
/// pair; a last sample without a partner is dropped. Any other channel
/// count is refused.
pub fn condense_channels(channel_count: u16, v: RawWav) -> (r: Result<RawWav, AnalysisError>)
    ensures
        channel_count == 1 || channel_count == 2 <==> r is Ok,
        r is Ok ==> r->Ok_0@ == condensed(channel_count, v@),
        r is Err ==> r->Err_0 == AnalysisError::UnsupportedChannelLayout,
{
    if channel_count == 1 {
        return Ok(v);
    }
    if channel_count != 2 {
        return Err(AnalysisError::UnsupportedChannelLayout);
    }
    let pairs: usize = v.len() / 2;
    let mut mono: Vec<i32> = Vec::with_capacity(pairs);
    let mut i: usize = 0;
    while i < pairs
        invariant
            i <= pairs,
            pairs == v.len() / 2,
            mono@ == stereo_mix(v@).take(i as int),
        decreases pairs - i,
    {
        let m: i32 = mix(v[2 * i], v[2 * i + 1]);
        mono.push(m);
        assert(mono@ =~= stereo_mix(v@).take(i + 1));
        i += 1;
    }
    assert(mono@ =~= stereo_mix(v@));
    Ok(mono)
}

/// Condensing keeps the samples in order and yields as many as there are
/// frames: all of them for one channel, half of them, rounded down, for two.
pub proof fn lemma_condense_length_and_order(channel_count: u16, v: Seq<i32>)
    requires
        channel_count == 1 || channel_count == 2,
    ensures
        channel_count == 1 ==> condensed(channel_count, v) == v,
        channel_count == 2 ==> condensed(channel_count, v).len() == v.len() / 2,
        channel_count == 2 ==> forall|i: int|
            0 <= i < v.len() / 2 ==> #[trigger] condensed(channel_count, v)[i] == mean(
                left(v, i),
                right(v, i),
            ),
{
}

/// Where the two channels of a stereo recording carry the same signal, the
/// condensed signal is that signal, sample for sample.
pub proof fn lemma_identical_channels(v: Seq<i32>)
    requires
        forall|i: int| 0 <= i < v.len() / 2 ==> #[trigger] left(v, i) == right(v, i),
    ensures
        condensed(2, v).len() == v.len() / 2,
        forall|i: int| 0 <= i < v.len() / 2 ==> #[trigger] condensed(2, v)[i] == left(v, i),
{
}

} // verus!
