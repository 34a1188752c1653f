//! The records that the setup writes to the music database.

use vstd::prelude::*;

verus! {

/// An artist row.
#[derive(Debug, Clone)]
pub struct Artist {
    pub artistid: String,
    pub name: String,
    pub first_letter: String,
}

/// An album row.
#[derive(Debug, Clone)]
pub struct Album {
    pub albumid: String,
    pub artistid: String,
    pub name: String,
    pub first_letter: String,
}

/// A song row.
#[derive(Debug, Clone)]
pub struct Song {
    pub rusicid: String,
    pub albumid: String,
    pub title: String,
    pub imgurl: String,
    pub playpath: String,
    pub fullpath: String,
    pub extension: String,
    pub idx: String,
    pub page: String,
    pub fsizeresults: String,
    pub first_letter: String,
}

/// A cover-art image row.
#[derive(Debug, Clone)]
pub struct AlbumImage {
    pub albumid: String,
    pub width: String,
    pub height: String,
    pub filesize: String,
    pub fullpath: String,
    pub thumbpath: String,
    pub idx: String,
    pub page: String,
    pub httpthumbpath: String,
}

/// A playlist row.
#[derive(Debug, Clone)]
pub struct PlayList {
    pub rusicid: String,
    pub name: String,
}

/// Counts of the rows in the database.
#[derive(Debug, Clone)]
pub struct Stats {
    pub artistcount: i64,
    pub albumcount: i64,
    pub songcount: i64,
    pub imagecount: i64,
}

/// The songs of one album, with the page the album is shown on; `rusicids`
/// is the JSON array of the song ids.
#[derive(Debug, Clone)]
pub struct AlbumSongs {
    pub page: i32,
    pub albumid: String,
    pub rusicids: String,
}

/// The names and first letters of one audio file's artist, album and song.
#[derive(Debug, Clone)]
pub struct FirstLetterInfo {
    pub rusicid: String,
    pub artist: String,
    pub album: String,
    pub song: String,
    pub artistid: String,
    pub albumid: String,
    pub artist_first_letter: String,
    pub album_first_letter: String,
    pub song_first_letter: String,
}

} // verus!
