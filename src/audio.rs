//! Audio file formats.
use vstd::prelude::*;

verus! {

/// The encodings an audio file may be stored in.
pub enum AudioFileFormat {
    Mp3,
    Wav,
}

} // verus!
