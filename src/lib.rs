//! Indexing of DJ mix recordings and music files: a parser for the cue
//! sheets that accompany a mix, the rules that pair a sheet with its wave
//! file, the decisions of a directory scan, and the choice of the tag fields
//! that describe a song.
pub mod cue;
pub mod db;
pub mod recording;
pub mod scan;
pub mod settings;
pub mod songs;
pub mod text;
pub mod wave;
