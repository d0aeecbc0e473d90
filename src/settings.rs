//! Where the recordings are looked for.
use vstd::prelude::*;
use crate::cue::opt_view;

verus! {

/// The settings of the application.
#[derive(Debug, Clone)]
pub struct AppSettings {
    /// The directory that holds the recordings, where one is known.
    pub recordings_dir: Option<String>,
}

/// The path that `PathBuf::push(base, rel)` gives.
pub uninterp spec fn joined_path(base: Seq<char>, rel: Seq<char>) -> Seq<char>;

/// Relies on `PathBuf::push`: `rel` appended to `base` as path components;
/// the result depends on the two paths alone.
#[verifier::external_body]
fn join_path(base: &str, rel: &str) -> (r: String)
    ensures
        r@ == joined_path(base@, rel@),
{
    let mut p = std::path::PathBuf::from(base);
    p.push(rel);
    p.to_string_lossy().into_owned()
}

/// Where the console keeps its recordings, below the user's audio directory.
pub open spec fn recording_subpath() -> Seq<char> {
    seq![
        'P', 'i', 'o', 'n', 'e', 'e', 'r', 'D', 'J', '/', 'R', 'e', 'c', 'o', 'r', 'd', 'i', 'n', 'g'
    ]
}

/// The default recordings directory for an audio directory.
pub open spec fn default_dir(audio_dir: Option<Seq<char>>) -> Option<Seq<char>> {
    match audio_dir {
        Some(d) => Some(joined_path(d, recording_subpath())),
        None => None,
    }
}

impl AppSettings {
    /// The recordings directory below the user's audio directory, where
    /// there is one.
    pub fn default_recordings_dir(audio_dir: Option<String>) -> (r: Option<String>)
        ensures
            opt_view(r) == default_dir(opt_view(audio_dir)),
    {
        match audio_dir {
            Some(d) => {
                proof {
                    reveal_strlit("PioneerDJ/Recording");
                    assert("PioneerDJ/Recording"@ =~= recording_subpath());
                }
                Some(join_path(d.as_str(), "PioneerDJ/Recording"))
            },
            None => None,
        }
    }

    /// The settings from the stored recordings directory, where the store
    /// holds one as text; else from the default below the audio directory.
    pub fn load_from_store(stored_recordings_dir: Option<String>, audio_dir: Option<String>) -> (r:
        AppSettings)
        ensures
            stored_recordings_dir is Some ==> opt_view(r.recordings_dir) == opt_view(
                stored_recordings_dir,
            ),
            stored_recordings_dir is None ==> opt_view(r.recordings_dir) == default_dir(
                opt_view(audio_dir),
            ),
    {
        let recordings_dir = match stored_recordings_dir {
            Some(s) => Some(s),
            None => Self::default_recordings_dir(audio_dir),
        };
        AppSettings { recordings_dir }
    }
}

} // verus!
