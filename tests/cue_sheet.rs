use dbeat::cue::{extract_quoted_string, CueSheet};
use dbeat::recording::Recording;

const SHEET: &str = "REM DATE 2024-05-01\r\nREM COMMENT \"Recorded live\"\r\nTITLE \"Friday Mix\"\r\nPERFORMER \"DJ Example\"\r\nFILE \"Friday Mix.wav\" WAVE\r\n  TRACK 01 AUDIO\r\n\tTITLE \"First Song\"\r\n\tPERFORMER \"Artist One\"\r\n\tFILE \"C:\\Music\\first.mp3\" MP3\r\n\tINDEX 01 00:00:00\r\n  TRACK 02 AUDIO\r\n\tTITLE \"Second Song\"\r\n\tPERFORMER \"Artist Two\"\r\n\tINDEX 01 00:03:41\r\n";

#[test]
fn parses_full_sheet() {
    let sheet = CueSheet::parse("/mixes/friday.cue".to_string(), SHEET);
    assert_eq!(sheet.file_path, "/mixes/friday.cue");
    assert_eq!(sheet.rem.len(), 2);
    assert_eq!(sheet.rem[0], ("DATE".to_string(), "2024-05-01".to_string()));
    assert_eq!(sheet.rem[1], ("COMMENT".to_string(), "Recorded live".to_string()));
    assert_eq!(sheet.title.as_deref(), Some("Friday Mix"));
    assert_eq!(sheet.performer.as_deref(), Some("DJ Example"));
    let file = sheet.file.as_ref().unwrap();
    assert_eq!(file.name, "Friday Mix.wav");
    assert_eq!(file.format, "WAVE");
    assert_eq!(sheet.tracks.len(), 2);
    assert_eq!(sheet.tracks[0].title.as_deref(), Some("First Song"));
    assert_eq!(sheet.tracks[0].performer.as_deref(), Some("Artist One"));
    let tf = sheet.tracks[0].file.as_ref().unwrap();
    assert_eq!(tf.name, "C:\\Music\\first.mp3");
    assert_eq!(tf.format, "MP3");
    assert_eq!(sheet.tracks[0].start_time.as_deref(), Some("00:00:00"));
    assert_eq!(sheet.tracks[1].title.as_deref(), Some("Second Song"));
    assert!(sheet.tracks[1].file.is_none());
    assert_eq!(sheet.tracks[1].start_time.as_deref(), Some("00:03:41"));
    assert!(sheet.wave_file.is_none());
}

#[test]
fn sheet_level_title_is_taken() {
    let sheet = CueSheet::parse("a.cue".to_string(), "TITLE \"My Mix\"");
    assert_eq!(sheet.title.as_deref(), Some("My Mix"));
    assert!(sheet.tracks.is_empty());
}

#[test]
fn indented_title_outside_track_is_ignored() {
    let sheet = CueSheet::parse("a.cue".to_string(), "\tTITLE \"Stray\"\n");
    assert!(sheet.title.is_none());
}

#[test]
fn title_inside_track_goes_to_track() {
    let sheet = CueSheet::parse("a.cue".to_string(), "TRACK 01 AUDIO\nTITLE \"Song\"\n");
    assert!(sheet.title.is_none());
    assert_eq!(sheet.tracks.len(), 1);
    assert_eq!(sheet.tracks[0].title.as_deref(), Some("Song"));
}

#[test]
fn one_track_per_track_line() {
    let text = "TRACK 01 AUDIO\nTRACK 02 AUDIO\n  TRACK 03 AUDIO\nINDEX 01 00:01:00";
    let sheet = CueSheet::parse("a.cue".to_string(), text);
    assert_eq!(sheet.tracks.len(), 3);
    assert!(sheet.tracks[0].start_time.is_none());
    assert!(sheet.tracks[1].start_time.is_none());
    assert_eq!(sheet.tracks[2].start_time.as_deref(), Some("00:01:00"));
}

#[test]
fn no_tracks_without_track_lines() {
    let sheet = CueSheet::parse("a.cue".to_string(), "TITLE \"x\"\nINDEX 01 00:00:00\n");
    assert!(sheet.tracks.is_empty());
}

#[test]
fn rem_value_loses_surrounding_quotes() {
    let sheet = CueSheet::parse("a.cue".to_string(), "REM KEY \"some value\"");
    assert_eq!(sheet.rem, vec![("KEY".to_string(), "some value".to_string())]);
}

#[test]
fn rem_value_words_are_joined_by_single_spaces() {
    let sheet = CueSheet::parse("a.cue".to_string(), "REM GENRE   deep    house");
    assert_eq!(sheet.rem, vec![("GENRE".to_string(), "deep house".to_string())]);
}

#[test]
fn rem_with_two_words_is_skipped() {
    let sheet = CueSheet::parse("a.cue".to_string(), "REM KEY");
    assert!(sheet.rem.is_empty());
}

#[test]
fn malformed_lines_change_nothing() {
    let text = "\n   \nTITLE\nTRACK\nINDEX 01\nFLAGS DCP\nCATALOG 123 456\n";
    let sheet = CueSheet::parse("a.cue".to_string(), text);
    assert!(sheet.rem.is_empty());
    assert!(sheet.title.is_none());
    assert!(sheet.performer.is_none());
    assert!(sheet.file.is_none());
    assert!(sheet.tracks.is_empty());
}

#[test]
fn unquoted_title_is_taken_whole() {
    let sheet = CueSheet::parse("a.cue".to_string(), "TITLE   Plain Title  ");
    assert_eq!(sheet.title.as_deref(), Some("Plain Title"));
}

#[test]
fn file_name_excludes_format() {
    let sheet = CueSheet::parse("a.cue".to_string(), "FILE \"a b.wav\" WAVE");
    let file = sheet.file.unwrap();
    assert_eq!(file.name, "a b.wav");
    assert_eq!(file.format, "WAVE");
}

#[test]
fn index_without_open_track_is_ignored() {
    let sheet = CueSheet::parse("a.cue".to_string(), "INDEX 01 00:00:10\nTRACK 01 AUDIO\n");
    assert_eq!(sheet.tracks.len(), 1);
    assert!(sheet.tracks[0].start_time.is_none());
}

#[test]
fn extract_quoted_between_first_pair() {
    assert_eq!(extract_quoted_string(" \"abc\" \"def\""), Some("abc".to_string()));
    assert_eq!(extract_quoted_string("\"\""), Some(String::new()));
}

#[test]
fn extract_quoted_falls_back_to_trimmed_text() {
    assert_eq!(extract_quoted_string("  no quotes here "), Some("no quotes here".to_string()));
    assert_eq!(extract_quoted_string(" \"open only "), Some("\"open only".to_string()));
}

#[test]
fn recording_takes_times_or_zero() {
    let r = Recording::parse("/m/a.cue", "TITLE \"T\"\n", Some((1700000000, 1700000100)));
    assert_eq!(r.file_path, "/m/a.cue");
    assert_eq!(r.last_modified_unix_seconds, 1700000000);
    assert_eq!(r.last_accessed_unix_seconds, 1700000100);
    assert_eq!(r.title.as_deref(), Some("T"));
    let r = Recording::parse("/m/a.cue", "", None);
    assert_eq!(r.last_modified_unix_seconds, 0);
    assert_eq!(r.last_accessed_unix_seconds, 0);
    assert!(r.tracks.is_empty());
}

#[test]
fn inserted_malformed_line_changes_nothing() {
    let a = CueSheet::parse("a.cue".to_string(), "TITLE \"M\"\nTRACK 01 AUDIO\nTITLE \"S\"\n");
    let b = CueSheet::parse("a.cue".to_string(), "TITLE \"M\"\nFLAGS DCP\nTRACK 01 AUDIO\nTRACK\nTITLE \"S\"\n");
    assert_eq!(a.title, b.title);
    assert_eq!(a.tracks.len(), b.tracks.len());
    assert_eq!(a.tracks[0].title, b.tracks[0].title);
    assert_eq!(b.tracks[0].title.as_deref(), Some("S"));
}

#[test]
fn sheet_title_survives_later_track_titles() {
    let text = "REM DATE 2024\nTITLE \"Mix\"\nPERFORMER \"DJ\"\nTRACK 01 AUDIO\nTITLE \"Song\"\n";
    let sheet = CueSheet::parse("a.cue".to_string(), text);
    assert_eq!(sheet.title.as_deref(), Some("Mix"));
    assert_eq!(sheet.tracks[0].title.as_deref(), Some("Song"));
}

#[test]
fn short_rem_and_index_lines_change_nothing() {
    let a = CueSheet::parse("a.cue".to_string(), "TRACK 01 AUDIO\nINDEX 01 00:00:05\n");
    let b = CueSheet::parse("a.cue".to_string(), "TRACK 01 AUDIO\nINDEX 01 00:00:05\nREM KEY\nINDEX 02\n");
    assert_eq!(a.rem.len(), b.rem.len());
    assert_eq!(b.tracks[0].start_time.as_deref(), Some("00:00:05"));
}

#[test]
fn title_line_ending_the_text_is_taken() {
    let sheet = CueSheet::parse("a.cue".to_string(), "REM DATE 2024\nTITLE \"Last\"");
    assert_eq!(sheet.title.as_deref(), Some("Last"));
}
