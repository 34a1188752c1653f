//! The songs of each album as a JSON list, with the page each album is
//! shown on, and the order of the songs of a playlist.

use vstd::prelude::*;
use crate::paging::{album_page, album_pages};
use crate::types::AlbumSongs;
use crate::digest::hex_digit;

verus! {

/// How JSON writes the character `c` inside a string, as serde_json does:
/// the quote, the backslash and the control characters below U+0020 are
/// escaped (those that have a short escape get it, the others `\u00` and two
/// lower-case hex digits); every other character stands as it is.
pub open spec fn json_escaped_char(c: char) -> Seq<char> {
    if c == '"' {
        seq!['\\', '"']
    } else if c == '\\' {
        seq!['\\', '\\']
    } else if c == '\u{8}' {
        seq!['\\', 'b']
    } else if c == '\u{c}' {
        seq!['\\', 'f']
    } else if c == '\n' {
        seq!['\\', 'n']
    } else if c == '\r' {
        seq!['\\', 'r']
    } else if c == '\t' {
        seq!['\\', 't']
    } else if (c as u32) < 32 {
        seq!['\\', 'u', '0', '0', hex_digit(((c as u32) / 16) as nat), hex_digit(((c as u32) % 16) as nat)]
    } else {
        seq![c]
    }
}

/// The characters of `s`, each written as `json_escaped_char` says.
pub open spec fn json_escaped(s: Seq<char>) -> Seq<char>
    decreases s.len(),
{
    if s.len() == 0 {
        Seq::empty()
    } else {
        json_escaped(s.drop_last()) + json_escaped_char(s.last())
    }
}

/// `s` as a JSON string: its escaped characters between double quotes.
pub open spec fn json_string(s: Seq<char>) -> Seq<char> {
    seq!['"'] + json_escaped(s) + seq!['"']
}

/// The JSON strings of `items`, separated by commas.
pub open spec fn json_items(items: Seq<Seq<char>>) -> Seq<char>
    decreases items.len(),
{
    if items.len() == 0 {
        Seq::empty()
    } else if items.len() == 1 {
        json_string(items[0])
    } else {
        json_items(items.drop_last()) + seq![','] + json_string(items.last())
    }
}

/// `items` as a compact JSON array of strings: `[`, the strings separated by
/// commas, `]`.
pub open spec fn json_string_array(items: Seq<Seq<char>>) -> Seq<char> {
    seq!['['] + json_items(items) + seq![']']
}

/// Calls `serde_json::to_string` on a list of strings. Trusted: the text is
/// the compact JSON array `json_string_array` describes. serde_json writes
/// `[`, then each string between quotes with the escapes of its `ESCAPE`
/// table, separated by `,`, then `]`; it reports an error only when a value's
/// `Serialize` fails or a map has a key that is not a string, neither of
/// which can happen for a list of strings written into memory, so the empty
/// text that stands in for an error is never returned.
#[verifier::external_body]
fn json_of_strings(items: &Vec<String>) -> (r: String)
    ensures
        r@ == json_string_array(items.deep_view()),
{
    serde_json::to_string(items).unwrap_or_default()
}

/// The rows for albums whose song lists are already written as JSON: the
/// `k`-th album (counting from 1) with its page and its list.
pub fn album_songs_from_json(
    album_ids: Vec<String>,
    song_lists: Vec<String>,
    pagination: i32,
) -> (r: Vec<AlbumSongs>)
    requires
        album_ids@.len() == song_lists@.len(),
        album_ids@.len() < i32::MAX,
    ensures
        r@.len() == album_ids@.len(),
        forall|k: int|
            0 <= k < r@.len() ==> {
                &&& (#[trigger] r@[k]).page == album_page((k + 1) as nat, pagination as int)
                &&& r@[k].albumid@ == album_ids@[k]@
                &&& r@[k].rusicids@ == song_lists@[k]@
            },
{
    let n = album_ids.len();
    let pages = album_pages(n, pagination);
    let mut r: Vec<AlbumSongs> = Vec::new();
    for k in 0..n
        invariant
            n == album_ids@.len(),
            n == song_lists@.len(),
            pages@.len() == n,
            forall|j: int| 0 <= j < n ==> #[trigger] pages@[j] == album_page((j + 1) as nat, pagination as int),
            r@.len() == k,
            forall|j: int|
                0 <= j < k ==> {
                    &&& (#[trigger] r@[j]).page == album_page((j + 1) as nat, pagination as int)
                    &&& r@[j].albumid@ == album_ids@[j]@
                    &&& r@[j].rusicids@ == song_lists@[j]@
                },
    {
        r.push(
            AlbumSongs {
                page: pages[k],
                albumid: album_ids[k].clone(),
                rusicids: song_lists[k].clone(),
            },
        );
    }
    r
}

/// The rows for albums and the ids of their songs: each album with its page
/// and its song ids as a JSON list.
pub fn songids_for_albumid(
    album_ids: Vec<String>,
    song_ids: Vec<Vec<String>>,
    pagination: i32,
) -> (rows: Vec<AlbumSongs>)
    requires
        album_ids@.len() == song_ids@.len(),
        album_ids@.len() < i32::MAX,
    ensures
        rows@.len() == album_ids@.len(),
        forall|k: int|
            0 <= k < rows@.len() ==> {
                &&& (#[trigger] rows@[k]).page == album_page((k + 1) as nat, pagination as int)
                &&& rows@[k].albumid@ == album_ids@[k]@
                &&& rows@[k].rusicids@ == json_string_array(song_ids@[k].deep_view())
            },
{
    let n = song_ids.len();
    let mut lists: Vec<String> = Vec::new();
    for k in 0..n
        invariant
            n == song_ids@.len(),
            n == album_ids@.len(),
            lists@.len() == k,
            forall|j: int| 0 <= j < k ==> (#[trigger] lists@[j])@ == json_string_array(song_ids@[j].deep_view()),
    {
        lists.push(json_of_strings(&song_ids[k]));
    }
    album_songs_from_json(album_ids, lists, pagination)
}

/// The rows of a playlist: each song with its position, counting from 0.
pub fn playlist_positions(songs: &Vec<String>) -> (r: Vec<(String, i64)>)
    requires
        songs@.len() <= i64::MAX,
    ensures
        r@.len() == songs@.len(),
        forall|k: int| 0 <= k < r@.len() ==> (#[trigger] r@[k]).0@ == songs@[k]@ && r@[k].1 == k,
{
    let n = songs.len();
    let mut r: Vec<(String, i64)> = Vec::new();
    for k in 0..n
        invariant
            n == songs@.len(),
            n <= i64::MAX,
            r@.len() == k,
            forall|j: int| 0 <= j < k ==> (#[trigger] r@[j]).0@ == songs@[j]@ && r@[j].1 == j,
    {
        r.push((songs[k].clone(), k as i64));
    }
    r
}

} // verus!
