//! Detection of alert tones in recorded audio.
//!
//! The two-tone header of an emergency alert (853 Hz and 960 Hz together) and
//! the attention tone of weather radio (1050 Hz) are looked for in
//! overlapping windows of a decoded recording. This crate holds the integer
//! side of that work: reducing the recording to one channel (`audio`),
//! laying out the windows (`framing`), ranking the bins of a window's
//! spectrum (`peaks`), testing the strongest against the tones (`tones`), and
//! collecting the reports (`analysis`). The spectrum of each window is
//! computed by the caller and handed in.

pub mod analysis;
pub mod audio;
pub mod error;
pub mod framing;
pub mod peaks;
pub mod tones;
