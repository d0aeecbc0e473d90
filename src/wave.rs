//! What the wave file beside a cue sheet holds.
use vstd::prelude::*;

verus! {

/// The header of a wave file. Its duration is not stored: it is
/// `total_samples / sample_rate` seconds, and `sample_rate` is never zero.
#[derive(Debug, Clone)]
pub struct WaveFile {
    /// The path of the wave file.
    pub file_path: String,
    pub channels: u16,
    pub sample_rate: u32,
    pub bits_per_sample: u16,
    pub sample_format: String,
    pub total_samples: u32,
}

/// The path that `Path::with_extension(p, e)` gives.
pub uninterp spec fn path_with_ext(p: Seq<char>, e: Seq<char>) -> Seq<char>;

/// Relies on `Path::with_extension`: the path with the extension of its file
/// name replaced by `ext`; the result depends on the two arguments alone. It
/// panics on an extension that holds a path separator, which is excluded.
#[verifier::external_body]
fn path_with_extension(p: &str, ext: &str) -> (r: String)
    requires
        forall|i: int| 0 <= i < ext@.len() ==> ext@[i] != '/' && ext@[i] != '\\',
    ensures
        r@ == path_with_ext(p@, ext@),
{
    std::path::Path::new(p).with_extension(ext).to_string_lossy().to_string()
}

/// The extension of a wave file.
pub open spec fn wav_ext() -> Seq<char> {
    seq!['w', 'a', 'v']
}

/// The wave file that belongs to a cue sheet: the same path with the
/// extension `wav`.
pub fn wave_path_for(cue_file_path: &str) -> (r: String)
    ensures
        r@ == path_with_ext(cue_file_path@, wav_ext()),
{
    proof {
        reveal_strlit("wav");
        assert("wav"@ =~= wav_ext());
    }
    path_with_extension(cue_file_path, "wav")
}

impl WaveFile {
    /// A header is usable when it has at least one channel and a sample rate
    /// that is not zero, so that the duration is defined.
    pub open spec fn wf(&self) -> bool {
        self.channels > 0 && self.sample_rate > 0
    }

    /// Builds the header of the wave file at `file_path` from the fields read
    /// from it. Gives `None` where there are no channels or the sample rate
    /// is zero: such a file has no duration.
    pub fn from_header(
        file_path: String,
        channels: u16,
        sample_rate: u32,
        bits_per_sample: u16,
        sample_format: String,
        total_samples: u32,
    ) -> (r: Option<WaveFile>)
        ensures
            r is None <==> (channels == 0 || sample_rate == 0),
            r is Some ==> ({
                let w = r->0;
                &&& w.wf()
                &&& w.file_path@ == file_path@
                &&& w.channels == channels
                &&& w.sample_rate == sample_rate
                &&& w.bits_per_sample == bits_per_sample
                &&& w.sample_format@ == sample_format@
                &&& w.total_samples == total_samples
            }),
    {
        if channels == 0 || sample_rate == 0 {
            None
        } else {
            Some(
                WaveFile {
                    file_path,
                    channels,
                    sample_rate,
                    bits_per_sample,
                    sample_format,
                    total_samples,
                },
            )
        }
    }
}

} // verus!
