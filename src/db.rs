//! The song store: an in-memory sqlite table of songs keyed by file path.
//! Nothing is kept between runs; the store is filled by a scan.
use vstd::prelude::*;
use rusqlite::OptionalExtension;
use crate::cue::opt_view;
use crate::songs::{Song, SongModel};

verus! {

/// Why a store operation failed.
#[derive(Debug, Clone)]
pub enum Error {
    /// A song with the same file path is stored already.
    Constraint(String),
    /// sqlite refused the operation for another reason; the message says why.
    Sqlite(String),
    /// No song with that file path is stored.
    RowNotFound,
}

/// The store.
#[verifier::external_body]
pub struct Database {
    conn: rusqlite::Connection,
}

/// The songs the store holds, by file path.
pub uninterp spec fn stored(db: Database) -> Map<Seq<char>, SongModel>;

/// Whether the store has its songs table.
pub uninterp spec fn has_songs_table(db: Database) -> bool;

/// The stored songs in the order a scan of the table gives them.
pub uninterp spec fn listed(db: Database) -> Seq<SongModel>;

/// The most characters a stored song's texts may hold together. A character
/// takes at most four bytes in UTF-8, so such a row stays well under
/// sqlite's default limit of 1,000,000,000 bytes for a value and a record.
pub open spec fn max_row_chars() -> nat {
    100_000_000
}

/// The number of characters of an optional text.
pub open spec fn text_len(o: Option<String>) -> nat {
    match o {
        Some(t) => t@.len(),
        None => 0,
    }
}

/// A song whose texts fit within sqlite's length limit.
pub open spec fn row_fits(s: Song) -> bool {
    s.file_path@.len() + text_len(s.title) + text_len(s.artist) + text_len(s.album) + text_len(
        s.genre,
    ) + text_len(s.bpm) <= max_row_chars()
}

/// The models of a list of songs, in order.
pub open spec fn song_models(v: Seq<Song>) -> Seq<SongModel> {
    v.map_values(|s: Song| s.model())
}

/// A row of the songs table: path, title, artist, album, genre, tempo text
/// and duration. Rows are written with a duration that is not negative.
pub type SongRow = (
    String,
    Option<String>,
    Option<String>,
    Option<String>,
    Option<String>,
    Option<String>,
    i64,
);

/// The song a row holds.
pub open spec fn row_model(r: SongRow) -> SongModel {
    SongModel {
        file_path: r.0@,
        title: opt_view(r.1),
        artist: opt_view(r.2),
        album: opt_view(r.3),
        genre: opt_view(r.4),
        bpm: opt_view(r.5),
        duration_seconds: if r.6 < 0 {
            0
        } else {
            r.6 as u64
        },
    }
}

/// The song a row holds.
pub fn song_of_row(r: SongRow) -> (s: Song)
    ensures
        s.model() == row_model(r),
{
    Song {
        file_path: r.0,
        title: r.1,
        artist: r.2,
        album: r.3,
        genre: r.4,
        bpm: r.5,
        duration_seconds: if r.6 < 0 {
            0
        } else {
            r.6 as u64
        },
    }
}

/// A store that holds no song.
pub open spec fn no_songs() -> Map<Seq<char>, SongModel> {
    Map::empty()
}

/// A list holds each stored song exactly once.
pub open spec fn lists_exactly(v: Seq<Song>, m: Map<Seq<char>, SongModel>) -> bool {
    &&& forall|i: int|
        0 <= i < v.len() ==> m.contains_key(v[i].file_path@) && m[v[i].file_path@]
            == v[i].model()
    &&& forall|k: Seq<char>| m.contains_key(k) ==> exists|i: int| 0 <= i < v.len() && v[i].file_path@ == k
    &&& forall|i: int, j: int|
        0 <= i < j < v.len() ==> v[i].file_path@ != v[j].file_path@
}

/// Relies on `rusqlite::Connection::open_in_memory`: a new, empty in-memory
/// database, with no table. In memory it fails only when memory runs out,
/// which, as for any allocation, is not considered.
#[verifier::external_body]
fn open_in_memory() -> (r: Result<Database, Error>)
    ensures
        r is Ok,
        stored(r->Ok_0) == no_songs(),
        !has_songs_table(r->Ok_0),
{
    match rusqlite::Connection::open_in_memory() {
        Ok(conn) => Ok(Database { conn }),
        Err(e) => Err(Error::Sqlite(e.to_string())),
    }
}

impl Database {
    /// The store has its songs table; `init` makes it so and every method
    /// keeps it.
    pub open spec fn wf(&self) -> bool {
        has_songs_table(*self)
    }

    /// Relies on `rusqlite::Connection::execute` with a `CREATE TABLE`: where
    /// there is no songs table yet it creates an empty one; it changes no
    /// stored song.
    #[verifier::external_body]
    fn create_songs_table(&mut self) -> (r: Result<(), Error>)
        ensures
            !has_songs_table(*old(self)) ==> r is Ok,
            r is Ok ==> has_songs_table(*final(self)),
            stored(*final(self)) == stored(*old(self)),
    {
        match self.conn.execute(
            "CREATE TABLE songs (file_path TEXT PRIMARY KEY, title TEXT, artist TEXT,
            album TEXT, genre TEXT, bpm TEXT, duration_seconds INTEGER NOT NULL)",
            (),
        ) {
            Ok(_) => Ok(()),
            Err(e) => Err(Error::Sqlite(e.to_string())),
        }
    }

    /// Relies on `rusqlite::Connection::execute` with an `INSERT` into the
    /// songs table, whose key is the file path. For a row within sqlite's
    /// length limit: a stored path is refused with a constraint violation,
    /// and a new one is added. A statement that fails changes nothing; one
    /// that succeeds adds the row, whose columns read back as written.
    #[verifier::external_body]
    fn insert_row(&mut self, song: &Song, duration: i64) -> (r: Result<(), Error>)
        requires
            has_songs_table(*old(self)),
            duration as int == song.duration_seconds as int,
        ensures
            has_songs_table(*final(self)),
            row_fits(*song) && stored(*old(self)).contains_key(song.file_path@) ==> r is Err
                && r->Err_0 is Constraint,
            row_fits(*song) && !stored(*old(self)).contains_key(song.file_path@) ==> r is Ok,
            r is Err ==> stored(*final(self)) == stored(*old(self)) && listed(*final(self))
                == listed(*old(self)),
            r is Ok ==> stored(*final(self)) == stored(*old(self)).insert(
                song.file_path@,
                song.model(),
            ),
    {
        let s = song;
        match self.conn.execute(
            "INSERT INTO songs (file_path, title, artist, album, genre, bpm, duration_seconds)
            VALUES (?1, ?2, ?3, ?4, ?5, ?6, ?7)",
            (&s.file_path, &s.title, &s.artist, &s.album, &s.genre, &s.bpm, duration),
        ) {
            Ok(_) => Ok(()),
            Err(e) if e.sqlite_error_code() == Some(rusqlite::ErrorCode::ConstraintViolation) => {
                Err(Error::Constraint(e.to_string()))
            },
            Err(e) => Err(Error::Sqlite(e.to_string())),
        }
    }

    /// Relies on `rusqlite::Connection::query_row` with a `SELECT` by file
    /// path: the stored row with that path, if there is one. On a store with
    /// its table and a path within sqlite's length limit the query succeeds.
    #[verifier::external_body]
    fn select_row(&self, path: &str) -> (r: Result<Option<Song>, Error>)
        requires
            has_songs_table(*self),
        ensures
            path@.len() <= max_row_chars() ==> r is Ok,
            r is Ok ==> (r->Ok_0 is Some <==> stored(*self).contains_key(path@)),
            r is Ok && r->Ok_0 is Some ==> r->Ok_0->0.model() == stored(*self)[path@],
            r is Err ==> r->Err_0 is Sqlite,
    {
        self.conn.query_row(
            "SELECT file_path, title, artist, album, genre, bpm, duration_seconds
            FROM songs WHERE file_path = ?1",
            [path],
            |row| Ok(song_of_row((row.get(0)?, row.get(1)?, row.get(2)?, row.get(3)?, row.get(4)?, row.get(5)?, row.get(6)?))),
        ).optional().map_err(|e| Error::Sqlite(e.to_string()))
    }

    /// Relies on `rusqlite::Statement::query_map` with a `SELECT` of the whole
    /// songs table: every stored row, once each, in the table's order. On a
    /// store with its table the query succeeds.
    #[verifier::external_body]
    fn select_all(&self) -> (r: Result<Vec<Song>, Error>)
        requires
            has_songs_table(*self),
        ensures
            r is Ok,
            lists_exactly(r->Ok_0@, stored(*self)),
            song_models(r->Ok_0@) == listed(*self),
    {
        let sql = "SELECT file_path, title, artist, album, genre, bpm, duration_seconds FROM songs";
        let mut statement = self.conn.prepare(sql).map_err(|e| Error::Sqlite(e.to_string()))?;
        let rows = statement.query_map([], |row| Ok(song_of_row((row.get(0)?, row.get(1)?, row.get(2)?, row.get(3)?, row.get(4)?, row.get(5)?, row.get(6)?))));
        rows.and_then(|rows| rows.collect()).map_err(|e| Error::Sqlite(e.to_string()))
    }

    /// A new, empty store.
    pub fn init() -> (r: Result<Database, Error>)
        ensures
            r is Ok,
            r->Ok_0.wf(),
            stored(r->Ok_0) == no_songs(),
    {
        match open_in_memory() {
            Ok(mut db) => match db.create_songs_table() {
                Ok(()) => Ok(db),
                Err(e) => Err(e),
            },
            Err(e) => Err(e),
        }
    }

    /// Stores a song. Within sqlite's length limit, a song whose file path is
    /// stored already is refused with `Constraint`, and a new one is stored.
    /// A refused insert changes nothing, so the stored song stays as it was.
    pub fn insert_song(&mut self, song: &Song) -> (r: Result<(), Error>)
        requires
            old(self).wf(),
            song.duration_seconds <= i64::MAX,
        ensures
            final(self).wf(),
            row_fits(*song) && stored(*old(self)).contains_key(song.file_path@) ==> r is Err
                && r->Err_0 is Constraint,
            row_fits(*song) && !stored(*old(self)).contains_key(song.file_path@) ==> r is Ok,
            r is Err ==> stored(*final(self)) == stored(*old(self)) && listed(*final(self))
                == listed(*old(self)),
            r is Ok ==> stored(*final(self)) == stored(*old(self)).insert(
                song.file_path@,
                song.model(),
            ),
    {
        let duration = song.duration_seconds as i64;
        self.insert_row(song, duration)
    }

    /// The stored song with the file path `path`; `RowNotFound` where there
    /// is none.
    pub fn get_song(&self, path: &str) -> (r: Result<Song, Error>)
        requires
            self.wf(),
        ensures
            path@.len() <= max_row_chars() ==> (stored(*self).contains_key(path@) <==> r is Ok),
            path@.len() <= max_row_chars() && !stored(*self).contains_key(path@) ==> r is Err
                && r->Err_0 is RowNotFound,
            r is Ok ==> stored(*self).contains_key(path@) && r->Ok_0.model() == stored(
                *self,
            )[path@],
            r is Err && r->Err_0 is RowNotFound ==> !stored(*self).contains_key(path@),
    {
        match self.select_row(path) {
            Ok(Some(song)) => Ok(song),
            Ok(None) => Err(Error::RowNotFound),
            Err(e) => Err(e),
        }
    }

    /// Every stored song, each once, in the table's order, which is the same
    /// on every call while the store does not change.
    pub fn list_songs(&self) -> (r: Result<Vec<Song>, Error>)
        requires
            self.wf(),
        ensures
            r is Ok,
            lists_exactly(r->Ok_0@, stored(*self)),
            song_models(r->Ok_0@) == listed(*self),
    {
        self.select_all()
    }
}

} // verus!
