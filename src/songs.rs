//! Songs: the tag fields of a music file, chosen from the tags that the
//! file's probe found.
use vstd::prelude::*;
use crate::cue::opt_view;

verus! {

/// The fields of one tag block that a song is built from, as text.
#[derive(Debug, Clone)]
pub struct TagFields {
    pub title: Option<String>,
    pub artist: Option<String>,
    pub album: Option<String>,
    pub genre: Option<String>,
    /// The tempo entry.
    pub bpm: Option<String>,
    /// The integer tempo entry, read where the tempo entry is absent.
    pub integer_bpm: Option<String>,
}

/// Why a song could not be read from its file.
#[derive(Debug, Clone)]
pub enum SongFromFileError {
    /// The container could not be probed or parsed; the message says why.
    Lofty(String),
    /// The file could not be opened or read; the message says why.
    IO(String),
    /// The container holds no tag block at all.
    NoMetadata,
}

/// A song found in the music directory.
#[derive(Debug, Clone)]
pub struct Song {
    /// The path of the music file.
    pub file_path: String,
    pub title: Option<String>,
    pub artist: Option<String>,
    pub album: Option<String>,
    pub genre: Option<String>,
    /// The text of the tempo entry, where the tag has one. It is kept as
    /// written; where it does not read as a number the tempo is unknown.
    pub bpm: Option<String>,
    /// The length of the audio stream, in whole seconds.
    pub duration_seconds: u64,
}

/// A song as characters.
pub struct SongModel {
    pub file_path: Seq<char>,
    pub title: Option<Seq<char>>,
    pub artist: Option<Seq<char>>,
    pub album: Option<Seq<char>>,
    pub genre: Option<Seq<char>>,
    pub bpm: Option<Seq<char>>,
    pub duration_seconds: u64,
}

/// The tag a song is read from: the primary one, else the first one.
pub open spec fn chosen_tag(primary: Option<TagFields>, first: Option<TagFields>) -> Option<
    TagFields,
> {
    match primary {
        Some(t) => Some(t),
        None => first,
    }
}

/// The tempo text of a tag: the tempo entry, else the integer tempo entry.
pub open spec fn tempo_text(t: TagFields) -> Option<Seq<char>> {
    match t.bpm {
        Some(b) => Some(b@),
        None => opt_view(t.integer_bpm),
    }
}

impl Song {
    pub open spec fn model(&self) -> SongModel {
        SongModel {
            file_path: self.file_path@,
            title: opt_view(self.title),
            artist: opt_view(self.artist),
            album: opt_view(self.album),
            genre: opt_view(self.genre),
            bpm: opt_view(self.bpm),
            duration_seconds: self.duration_seconds,
        }
    }

    /// The song at `path` with the fields of tag `t`.
    pub open spec fn from_tag_spec(
        &self,
        path: Seq<char>,
        t: TagFields,
        duration_seconds: u64,
    ) -> bool {
        &&& self.file_path@ == path
        &&& opt_view(self.title) == opt_view(t.title)
        &&& opt_view(self.artist) == opt_view(t.artist)
        &&& opt_view(self.album) == opt_view(t.album)
        &&& opt_view(self.genre) == opt_view(t.genre)
        &&& opt_view(self.bpm) == tempo_text(t)
        &&& self.duration_seconds == duration_seconds
    }

    /// Builds the song at `path` from the tags its probe found: the primary
    /// tag where the container has one, else the first tag. With no tag at
    /// all it fails with `NoMetadata`. `duration_seconds` is the stream's
    /// length in whole seconds.
    pub fn from_tags(
        path: &str,
        primary: Option<TagFields>,
        first: Option<TagFields>,
        duration_seconds: u64,
    ) -> (r: Result<Song, SongFromFileError>)
        ensures
            r is Err <==> chosen_tag(primary, first) is None,
            r is Err ==> r->Err_0 is NoMetadata,
            r is Ok ==> r->Ok_0.from_tag_spec(
                path@,
                chosen_tag(primary, first)->0,
                duration_seconds,
            ),
    {
        let tag = match primary {
            Some(t) => t,
            None => match first {
                Some(t) => t,
                None => {
                    return Err(SongFromFileError::NoMetadata);
                },
            },
        };
        let bpm = match tag.bpm {
            Some(b) => Some(b),
            None => tag.integer_bpm,
        };
        Ok(
            Song {
                file_path: path.to_owned(),
                title: tag.title,
                artist: tag.artist,
                album: tag.album,
                genre: tag.genre,
                bpm,
                duration_seconds,
            },
        )
    }
}

} // verus!
