//! Choosing the artist, album and title of an audio file from the tags that
//! were read from it, and the rows and log lines made from them.

use vstd::prelude::*;
use crate::digest::get_md5;
use crate::numbers::{decimal, u64_to_string};
use crate::records::{id_of, TagInfo};
use crate::text::char_string;
use crate::types::FirstLetterInfo;
use crate::utils::{first_letter, first_letter_spec};

verus! {

/// The fields of one tag of an audio file that the setup reads.
#[derive(Debug)]
pub struct TagFields {
    pub artist: Option<String>,
    pub album: Option<String>,
    pub title: Option<String>,
    pub track: Option<u32>,
}

/// Why the tags of an audio file could not be used.
#[derive(Debug, Clone, Copy, PartialEq, Eq, Structural)]
pub enum TagError {
    NoTag,
    MissingArtist,
    MissingAlbum,
    MissingTitle,
}

/// The message for a tag error.
pub open spec fn tag_error_text(e: TagError) -> Seq<char> {
    match e {
        TagError::NoTag => "No metadata tag found"@,
        TagError::MissingArtist => "Missing artist tag"@,
        TagError::MissingAlbum => "Missing album tag"@,
        TagError::MissingTitle => "Missing title tag"@,
    }
}

/// The message for a tag error.
pub fn tag_error_message(e: TagError) -> (r: String)
    ensures
        r@ == tag_error_text(e),
{
    match e {
        TagError::NoTag => "No metadata tag found".to_owned(),
        TagError::MissingArtist => "Missing artist tag".to_owned(),
        TagError::MissingAlbum => "Missing album tag".to_owned(),
        TagError::MissingTitle => "Missing title tag".to_owned(),
    }
}

/// The tag that is used: the file's primary tag, else its first tag.
pub open spec fn chosen_tag(primary: Option<TagFields>, first: Option<TagFields>) -> Option<
    TagFields,
> {
    if primary is Some {
        primary
    } else {
        first
    }
}

/// A primary tag is always the one used, whatever the first tag holds; the
/// first tag is used only when there is no primary tag.
pub proof fn lemma_primary_tag_wins(p: TagFields, first: Option<TagFields>, other: Option<TagFields>)
    ensures
        chosen_tag(Some(p), first) == Some(p),
        chosen_tag(Some(p), first) == chosen_tag(Some(p), other),
        chosen_tag(None, first) == first,
{
}

/// The artist, album, title and track number (as text, 0 when missing) of
/// the used tag; an error when there is no tag or it lacks the artist, the
/// album or the title, in that order.
pub fn tag_info_from(primary: Option<TagFields>, first: Option<TagFields>) -> (r: Result<
    TagInfo,
    TagError,
>)
    ensures
        match chosen_tag(primary, first) {
            None => r == Err::<TagInfo, TagError>(TagError::NoTag),
            Some(t) => if t.artist is None {
                r == Err::<TagInfo, TagError>(TagError::MissingArtist)
            } else if t.album is None {
                r == Err::<TagInfo, TagError>(TagError::MissingAlbum)
            } else if t.title is None {
                r == Err::<TagInfo, TagError>(TagError::MissingTitle)
            } else {
                &&& r is Ok
                &&& (r->Ok_0).0@ == t.artist->0@
                &&& (r->Ok_0).1@ == t.album->0@
                &&& (r->Ok_0).2@ == t.title->0@
                &&& (r->Ok_0).3@ == decimal(
                    match t.track {
                        Some(n) => n as nat,
                        None => 0,
                    },
                )
            },
        },
{
    let tag = match primary {
        Some(t) => t,
        None => match first {
            Some(t) => t,
            None => {
                return Err(TagError::NoTag);
            },
        },
    };
    let artist = match tag.artist {
        Some(a) => a,
        None => {
            return Err(TagError::MissingArtist);
        },
    };
    let album = match tag.album {
        Some(a) => a,
        None => {
            return Err(TagError::MissingAlbum);
        },
    };
    let song = match tag.title {
        Some(s) => s,
        None => {
            return Err(TagError::MissingTitle);
        },
    };
    let track: u32 = match tag.track {
        Some(n) => n,
        None => 0,
    };
    Ok((artist, album, song, u64_to_string(track as u64)))
}

/// The names, ids and first letters of an audio file's artist, album and
/// song, from its path and its tags.
pub fn first_letter_info(media: String, tags: &TagInfo) -> (r: FirstLetterInfo)
    ensures
        r.rusicid@ == id_of(media@),
        r.artist@ == tags.0@,
        r.album@ == tags.1@,
        r.song@ == tags.2@,
        r.artistid@ == id_of(tags.0@),
        r.albumid@ == id_of(tags.1@),
        r.artist_first_letter@ == first_letter_spec(tags.0@),
        r.album_first_letter@ == first_letter_spec(tags.1@),
        r.song_first_letter@ == first_letter_spec(tags.2@),
{
    FirstLetterInfo {
        rusicid: get_md5(media.clone()),
        artist: tags.0.clone(),
        album: tags.1.clone(),
        song: tags.2.clone(),
        artistid: get_md5(tags.0.clone()),
        albumid: get_md5(tags.1.clone()),
        artist_first_letter: first_letter(tags.0.as_str()),
        album_first_letter: first_letter(tags.1.as_str()),
        song_first_letter: first_letter(tags.2.as_str()),
    }
}

/// A line of the tag-issue log: time stamp, path and message, separated by
/// ` | `, and a newline.
pub fn tag_issue_line(ts: u64, apath: &str, message: &str) -> (r: String)
    ensures
        r@ == decimal(ts as nat) + " | "@ + apath@ + " | "@ + message@ + "\n"@,
{
    let mut r = u64_to_string(ts);
    r.append(" | ");
    r.append(apath);
    r.append(" | ");
    r.append(message);
    r.append("\n");
    r
}

/// Which count of names by first letter is posted.
#[derive(Debug, Clone, Copy, PartialEq, Eq, Structural)]
pub enum AlphaCount {
    Artist,
    Album,
    Song,
}

/// The `k`-th count that `artist_album_count_by_alpha` posts: the artist
/// counts for `A` to `Z`, then the album counts, then the song counts.
pub open spec fn alpha_count_spec(k: int) -> (AlphaCount, Seq<char>) {
    (
        if k < 26 {
            AlphaCount::Artist
        } else if k < 52 {
            AlphaCount::Album
        } else {
            AlphaCount::Song
        },
        seq![(65 + k % 26) as char],
    )
}

/// The counts by first letter to post, in order: artists, albums, songs,
/// each for the letters `A` to `Z`.
pub fn artist_album_count_by_alpha() -> (r: Vec<(AlphaCount, String)>)
    ensures
        r@.len() == 78,
        forall|k: int|
            0 <= k < 78 ==> (#[trigger] r@[k]).0 == alpha_count_spec(k).0 && r@[k].1@
                == alpha_count_spec(k).1,
{
    let mut alphabet: Vec<String> = Vec::new();
    for i in 0..26u8
        invariant
            alphabet@.len() == i,
            forall|j: int| 0 <= j < i ==> (#[trigger] alphabet@[j])@ == seq![(65 + j) as char],
    {
        let c: u8 = 65u8 + i;
        alphabet.push(char_string(c as char));
    }
    let mut r: Vec<(AlphaCount, String)> = Vec::new();
    for kind in 0..3u8
        invariant
            alphabet@.len() == 26,
            forall|j: int| 0 <= j < 26 ==> (#[trigger] alphabet@[j])@ == seq![(65 + j) as char],
            r@.len() == 26 * kind,
            forall|k: int|
                0 <= k < 26 * kind ==> (#[trigger] r@[k]).0 == alpha_count_spec(k).0 && r@[k].1@
                    == alpha_count_spec(k).1,
    {
        let which = if kind == 0 {
            AlphaCount::Artist
        } else if kind == 1 {
            AlphaCount::Album
        } else {
            AlphaCount::Song
        };
        for i in 0..26usize
            invariant
                alphabet@.len() == 26,
                forall|j: int| 0 <= j < 26 ==> (#[trigger] alphabet@[j])@ == seq![(65 + j) as char],
                kind < 3,
                which == alpha_count_spec(26 * kind).0,
                r@.len() == 26 * kind + i,
                forall|k: int|
                    0 <= k < 26 * kind + i ==> (#[trigger] r@[k]).0 == alpha_count_spec(k).0
                        && r@[k].1@ == alpha_count_spec(k).1,
        {
            let ghost k = 26 * kind + i;
            proof {
                assert(k % 26 == i) by (nonlinear_arith)
                    requires
                        k == 26 * kind + i,
                        i < 26,
                ;
                assert(alpha_count_spec(k).0 == which);
            }
            r.push((which, alphabet[i].clone()));
        }
    }
    r
}

} // verus!
