use vstd::prelude::*;

verus! {

/// The waveform that one oscillator of a voice plays.
#[derive(Debug, Clone, Copy, PartialEq, Eq, Structural)]
#[non_exhaustive]
pub enum Wave {
    Saw,
    Triangle,
    Sin,
    Pulse,
}

} // verus!
