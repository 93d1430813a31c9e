//! The seam between the AirPlay session and the host's audio output.
//!
//! The library owns network to PCM; the host owns PCM to speaker. A host
//! provides an [`AudioSink`], and the playback thread feeds it interleaved
//! `i16` samples that should actually play.

use vstd::prelude::*;

verus! {

/// Where decoded audio goes. Implemented by the host, called from a dedicated
/// playback thread.
pub trait AudioSink: Send + 'static {
    /// Play interleaved `i16` PCM. `write` may block: blocking is the pacing
    /// mechanism.
    fn write(&mut self, pcm: &[i16]);

    /// FLUSH (seek or stop): immediately drop anything that the sink has queued
    /// or buffered of its own. The prebuffer has already been reset.
    fn flush(&mut self);
}

/// Discards all audio, for decode-only use. Never blocks, so the pipeline runs
/// unpaced.
pub struct NullSink;

impl AudioSink for NullSink {
    fn write(&mut self, pcm: &[i16]) {
    }

    fn flush(&mut self) {
    }
}

} // verus!
