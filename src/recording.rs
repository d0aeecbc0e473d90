//! A recording: a parsed cue sheet together with the times of its file.
use vstd::prelude::*;
use crate::cue::{comment_models, file_model, opt_view, sheet_of, track_models, SheetModel};
pub use crate::cue::{extract_quoted_string, File, Track};
pub use crate::wave::WaveFile;

verus! {

/// A recorded mix, as its cue sheet describes it.
#[derive(Debug, Clone)]
pub struct Recording {
    /// The path of the cue sheet.
    pub file_path: String,
    /// Last modified time of the cue sheet, in unix seconds.
    pub last_modified_unix_seconds: i64,
    /// Last access time of the cue sheet, in unix seconds.
    pub last_accessed_unix_seconds: i64,
    /// The `REM` comments, as key and value, in order.
    pub rem: Vec<(String, String)>,
    /// The title of the recording.
    pub title: Option<String>,
    /// The DJ who made the recording.
    pub performer: Option<String>,
    /// The file the sheet points to.
    pub file: Option<File>,
    /// The tracks, in the order the sheet lists them.
    pub tracks: Vec<Track>,
    /// What the wave file beside the sheet holds, where one was read.
    pub wave_file: Option<WaveFile>,
}

impl Recording {
    pub open spec fn model(&self) -> SheetModel {
        SheetModel {
            comments: comment_models(self.rem@),
            title: opt_view(self.title),
            performer: opt_view(self.performer),
            file: file_model(self.file),
            tracks: track_models(self.tracks@),
            current: None,
        }
    }

    /// Parses the text of the cue sheet at `file_path`. `times` holds the
    /// file's last modification and last access time where they could be
    /// read; where they could not, both are zero. Never fails.
    pub fn parse(file_path: &str, input: &str, times: Option<(i64, i64)>) -> (r: Recording)
        ensures
            r.file_path@ == file_path@,
            r.model() == sheet_of(input@),
            r.wave_file is None,
            r.last_modified_unix_seconds == (match times {
                Some(t) => t.0,
                None => 0,
            }),
            r.last_accessed_unix_seconds == (match times {
                Some(t) => t.1,
                None => 0,
            }),
    {
        let sheet = crate::cue::CueSheet::parse(file_path.to_owned(), input);
        let (modified, accessed) = match times {
            Some(t) => t,
            None => (0, 0),
        };
        Recording {
            file_path: sheet.file_path,
            last_modified_unix_seconds: modified,
            last_accessed_unix_seconds: accessed,
            rem: sheet.rem,
            title: sheet.title,
            performer: sheet.performer,
            file: sheet.file,
            tracks: sheet.tracks,
            wave_file: None,
        }
    }
}

} // verus!
