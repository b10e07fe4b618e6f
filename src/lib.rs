//! Range selection for trimming a media file: a time codec for
//! `HH:MM:SS.ff` text, a clamped start/end model over a known duration, a
//! pixel scrubber that drives it, a per-handle preview cache, and the
//! argument lists handed to the external encoder.
//!
//! Times are counted in hundredths of a second throughout.

pub mod timecode;
pub mod range;
pub mod scrubber;
pub mod preview;
pub mod command;
pub mod session;
