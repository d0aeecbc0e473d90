use dbeat::scan::{is_wanted, DirEntry, Scan, Wanted};
use dbeat::settings::AppSettings;
use dbeat::songs::{Song, SongFromFileError, TagFields};
use dbeat::wave::{wave_path_for, WaveFile};

fn tag(title: &str, bpm: Option<&str>, integer_bpm: Option<&str>) -> TagFields {
    TagFields {
        title: Some(title.to_string()),
        artist: Some("Artist".to_string()),
        album: None,
        genre: Some("House".to_string()),
        bpm: bpm.map(|s| s.to_string()),
        integer_bpm: integer_bpm.map(|s| s.to_string()),
    }
}

fn entry(path: &str, is_dir: bool) -> DirEntry {
    DirEntry { path: path.to_string(), is_dir }
}

#[test]
fn wave_path_replaces_extension() {
    assert_eq!(wave_path_for("/rec/mix 1/mix 1.cue"), "/rec/mix 1/mix 1.wav");
    assert_eq!(wave_path_for("/rec/mix"), "/rec/mix.wav");
}

#[test]
fn wave_header_with_zero_rate_is_refused() {
    let w = WaveFile::from_header("a.wav".to_string(), 2, 0, 16, "Int".to_string(), 100);
    assert!(w.is_none());
    let w = WaveFile::from_header("a.wav".to_string(), 0, 44100, 16, "Int".to_string(), 100);
    assert!(w.is_none());
}

#[test]
fn wave_header_keeps_fields() {
    let w = WaveFile::from_header("a.wav".to_string(), 2, 44100, 24, "Int".to_string(), 441000)
        .unwrap();
    assert_eq!(w.file_path, "a.wav");
    assert_eq!(w.channels, 2);
    assert_eq!(w.sample_rate, 44100);
    assert_eq!(w.bits_per_sample, 24);
    assert_eq!(w.sample_format, "Int");
    assert_eq!(w.total_samples, 441000);
    let seconds = w.total_samples as f64 / w.sample_rate as f64;
    assert!((seconds - 10.0).abs() < 1e-9);
}

#[test]
fn cue_sheets_are_wanted_by_extension() {
    assert!(is_wanted(&Wanted::CueSheets, "/rec/a.cue"));
    assert!(!is_wanted(&Wanted::CueSheets, "/rec/a.wav"));
    assert!(!is_wanted(&Wanted::CueSheets, "/rec/cue"));
}

#[test]
fn audio_files_are_wanted_when_lofty_knows_them() {
    assert!(is_wanted(&Wanted::AudioFiles, "/music/a.mp3"));
    assert!(is_wanted(&Wanted::AudioFiles, "/music/b.FLAC"));
    assert!(!is_wanted(&Wanted::AudioFiles, "/music/notes.txt"));
    assert!(!is_wanted(&Wanted::AudioFiles, "/music/noext"));
}

#[test]
fn scan_takes_cue_files_and_skips_others() {
    let mut scan = Scan::new("/rec".to_string(), Wanted::CueSheets);
    assert_eq!(scan.next_dir().as_deref(), Some("/rec"));
    let listing = vec![
        entry("/rec/with_wave.cue", false),
        entry("/rec/with_wave.wav", false),
        entry("/rec/alone.cue", false),
        entry("/rec/notes.txt", false),
    ];
    let files = scan.visit(&listing);
    assert_eq!(files, vec!["/rec/with_wave.cue".to_string(), "/rec/alone.cue".to_string()]);
    assert!(scan.next_dir().is_none());
}

#[test]
fn scan_reads_subdirectories_in_listing_order() {
    let mut scan = Scan::new("/r".to_string(), Wanted::CueSheets);
    let root = scan.next_dir().unwrap();
    assert_eq!(root, "/r");
    let files = scan.visit(&vec![entry("/r/a", true), entry("/r/x.cue", false), entry("/r/b", true)]);
    assert_eq!(files, vec!["/r/x.cue".to_string()]);
    assert_eq!(scan.next_dir().as_deref(), Some("/r/a"));
    let files = scan.visit(&vec![entry("/r/a/c", true), entry("/r/a/y.cue", false)]);
    assert_eq!(files, vec!["/r/a/y.cue".to_string()]);
    assert_eq!(scan.next_dir().as_deref(), Some("/r/a/c"));
    assert!(scan.visit(&vec![]).is_empty());
    assert_eq!(scan.next_dir().as_deref(), Some("/r/b"));
    assert!(scan.next_dir().is_none());
}

#[test]
fn song_uses_primary_tag() {
    let s = Song::from_tags("/m/a.mp3", Some(tag("Primary", Some("124"), None)), Some(tag("First", None, None)), 245)
        .ok()
        .unwrap();
    assert_eq!(s.file_path, "/m/a.mp3");
    assert_eq!(s.title.as_deref(), Some("Primary"));
    assert_eq!(s.artist.as_deref(), Some("Artist"));
    assert!(s.album.is_none());
    assert_eq!(s.genre.as_deref(), Some("House"));
    assert_eq!(s.bpm.as_deref(), Some("124"));
    assert_eq!(s.duration_seconds, 245);
}

#[test]
fn song_falls_back_to_first_tag() {
    let s = Song::from_tags("/m/a.flac", None, Some(tag("First", None, Some("128"))), 10).ok().unwrap();
    assert_eq!(s.title.as_deref(), Some("First"));
    assert_eq!(s.bpm.as_deref(), Some("128"));
}

#[test]
fn song_without_tags_has_no_metadata() {
    let r = Song::from_tags("/m/a.flac", None, None, 10);
    assert!(matches!(r, Err(SongFromFileError::NoMetadata)));
}

#[test]
fn song_tempo_text_reads_as_number_or_not() {
    let s = Song::from_tags("/m/a.mp3", Some(tag("T", Some("128.5"), Some("120"))), None, 1).ok().unwrap();
    assert_eq!(s.bpm.as_deref().and_then(|b| b.parse::<f64>().ok()), Some(128.5));
    let s = Song::from_tags("/m/a.mp3", Some(tag("T", Some("fast"), None)), None, 1).ok().unwrap();
    assert_eq!(s.bpm.as_deref().and_then(|b| b.parse::<f64>().ok()), None);
    assert_eq!(s.title.as_deref(), Some("T"));
    assert_eq!(s.genre.as_deref(), Some("House"));
}

#[test]
fn song_without_tempo_entries_has_no_tempo() {
    let s = Song::from_tags("/m/a.mp3", Some(tag("T", None, None)), None, 1).ok().unwrap();
    assert!(s.bpm.is_none());
}

#[test]
fn default_recordings_dir_is_below_audio_dir() {
    assert_eq!(
        AppSettings::default_recordings_dir(Some("/home/u/Music".to_string())).as_deref(),
        Some("/home/u/Music/PioneerDJ/Recording")
    );
    assert!(AppSettings::default_recordings_dir(None).is_none());
}

#[test]
fn stored_recordings_dir_wins() {
    let s = AppSettings::load_from_store(Some("/x".to_string()), Some("/home/u/Music".to_string()));
    assert_eq!(s.recordings_dir.as_deref(), Some("/x"));
    let s = AppSettings::load_from_store(None, Some("/a".to_string()));
    assert_eq!(s.recordings_dir.as_deref(), Some("/a/PioneerDJ/Recording"));
    let s = AppSettings::load_from_store(None, None);
    assert!(s.recordings_dir.is_none());
}

#[test]
fn visit_with_takes_files_by_answer() {
    let mut scan = Scan::new("/m".to_string(), Wanted::AudioFiles);
    assert_eq!(scan.next_dir().as_deref(), Some("/m"));
    let listing = vec![entry("/m/a.mp3", false), entry("/m/sub", true), entry("/m/b.txt", false), entry("/m/c.flac", false)];
    let files = scan.visit_with(&listing, &vec![true, true, false, true]);
    assert_eq!(files, vec!["/m/a.mp3".to_string(), "/m/c.flac".to_string()]);
    assert_eq!(scan.next_dir().as_deref(), Some("/m/sub"));
    assert!(scan.next_dir().is_none());
}
