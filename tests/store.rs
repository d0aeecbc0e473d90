use dbeat::db::{Database, Error};
use dbeat::songs::Song;

fn song(path: &str, title: &str, bpm: Option<&str>) -> Song {
    Song {
        file_path: path.to_string(),
        title: Some(title.to_string()),
        artist: None,
        album: Some("Album".to_string()),
        genre: None,
        bpm: bpm.map(|b| b.to_string()),
        duration_seconds: 321,
    }
}

#[test]
fn new_store_is_empty() {
    let db = Database::init().unwrap();
    assert!(db.list_songs().unwrap().is_empty());
}

#[test]
fn stored_song_reads_back() {
    let mut db = Database::init().unwrap();
    db.insert_song(&song("/m/a.mp3", "A", Some("128.5"))).unwrap();
    let s = db.get_song("/m/a.mp3").unwrap();
    assert_eq!(s.file_path, "/m/a.mp3");
    assert_eq!(s.title.as_deref(), Some("A"));
    assert!(s.artist.is_none());
    assert_eq!(s.album.as_deref(), Some("Album"));
    assert_eq!(s.bpm.as_deref(), Some("128.5"));
    assert_eq!(s.duration_seconds, 321);
}

#[test]
fn duplicate_insert_fails_and_keeps_first() {
    let mut db = Database::init().unwrap();
    db.insert_song(&song("/m/a.mp3", "First", None)).unwrap();
    let r = db.insert_song(&song("/m/a.mp3", "Second", Some("90")));
    assert!(matches!(r, Err(Error::Constraint(_))));
    let s = db.get_song("/m/a.mp3").unwrap();
    assert_eq!(s.title.as_deref(), Some("First"));
    assert!(s.bpm.is_none());
    assert_eq!(db.list_songs().unwrap().len(), 1);
}

#[test]
fn missing_song_is_not_found() {
    let mut db = Database::init().unwrap();
    db.insert_song(&song("/m/a.mp3", "A", None)).unwrap();
    assert!(matches!(db.get_song("/m/b.mp3"), Err(Error::RowNotFound)));
}

#[test]
fn list_holds_each_song_once() {
    let mut db = Database::init().unwrap();
    db.insert_song(&song("/m/a.mp3", "A", None)).unwrap();
    db.insert_song(&song("/m/b.mp3", "B", None)).unwrap();
    let mut paths: Vec<String> = db.list_songs().unwrap().into_iter().map(|s| s.file_path).collect();
    paths.sort();
    assert_eq!(paths, vec!["/m/a.mp3".to_string(), "/m/b.mp3".to_string()]);
}

#[test]
fn fresh_store_finds_nothing() {
    let db = Database::init().unwrap();
    assert!(matches!(db.get_song("/m/x.mp3"), Err(Error::RowNotFound)));
}

#[test]
fn listing_order_is_stable() {
    let mut db = Database::init().unwrap();
    for p in ["/m/c.mp3", "/m/a.mp3", "/m/b.mp3"] {
        db.insert_song(&song(p, "T", None)).unwrap();
    }
    let first: Vec<String> = db.list_songs().unwrap().into_iter().map(|s| s.file_path).collect();
    let second: Vec<String> = db.list_songs().unwrap().into_iter().map(|s| s.file_path).collect();
    assert_eq!(first, second);
    assert_eq!(first.len(), 3);
}
