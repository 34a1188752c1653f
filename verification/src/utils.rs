//! The path helper of the setup and the small computations around it.

use vstd::prelude::*;
use crate::paths::{
    extension, file_name, lemma_file_name_is_component, parent, path_extension, path_file_name,
    path_parent,
};
use crate::text::{char_string, chars_of, replace_char, replace_char_spec};

verus! {

/// An audio or image file of the music collection, by its path.
#[derive(Debug)]
pub struct RusicUtils {
    pub apath: String,
}

/// The artist and album folder names of a file `.../artist/album/file`,
/// with `_` read as a space.
pub open spec fn artist_album_spec(p: Seq<char>) -> (Seq<char>, Seq<char>) {
    let album_dir = path_parent(p)->0;
    let artist_dir = path_parent(album_dir)->0;
    (
        replace_char_spec(path_file_name(artist_dir)->0, '_', ' '),
        replace_char_spec(path_file_name(album_dir)->0, '_', ' '),
    )
}

/// Whether path `p` has the folders that `split_artist_album` reads: a
/// parent with a name, whose parent has a name.
pub open spec fn has_artist_album(p: Seq<char>) -> bool {
    &&& path_parent(p) is Some
    &&& path_file_name(path_parent(p)->0) is Some
    &&& path_parent(path_parent(p)->0) is Some
    &&& path_file_name(path_parent(path_parent(p)->0)->0) is Some
}

/// A folder name read with `_` as a space holds neither `_` nor `/`.
proof fn lemma_clean_name(name: Seq<char>)
    requires
        forall|i: int| 0 <= i < name.len() ==> name[i] != '/',
    ensures
        forall|i: int|
            0 <= i < replace_char_spec(name, '_', ' ').len() ==> {
                &&& #[trigger] replace_char_spec(name, '_', ' ')[i] != '_'
                &&& replace_char_spec(name, '_', ' ')[i] != '/'
            },
{
}

/// The artist and album names that `split_artist_album` gives hold no `_`
/// (it is read as a space) and no `/` (each is one folder name).
pub proof fn lemma_artist_album_clean(p: Seq<char>)
    requires
        has_artist_album(p),
    ensures
        forall|i: int|
            0 <= i < artist_album_spec(p).0.len() ==> {
                &&& #[trigger] artist_album_spec(p).0[i] != '_'
                &&& artist_album_spec(p).0[i] != '/'
            },
        forall|i: int|
            0 <= i < artist_album_spec(p).1.len() ==> {
                &&& #[trigger] artist_album_spec(p).1[i] != '_'
                &&& artist_album_spec(p).1[i] != '/'
            },
{
    let album_dir = path_parent(p)->0;
    let artist_dir = path_parent(album_dir)->0;
    lemma_file_name_is_component(album_dir);
    lemma_file_name_is_component(artist_dir);
    lemma_clean_name(path_file_name(artist_dir)->0);
    lemma_clean_name(path_file_name(album_dir)->0);
}

/// The text that `split_ext` writes when the path has no extension.
pub open spec fn no_extension_text() -> Seq<char> {
    "split_ext did not work"@
}

impl RusicUtils {
    /// The parent directory and the file name of the path.
    pub fn split_base_dir_filename(&self) -> (r: (String, String))
        requires
            path_parent(self.apath@) is Some,
            path_file_name(self.apath@) is Some,
        ensures
            r.0@ == path_parent(self.apath@)->0,
            r.1@ == path_file_name(self.apath@)->0,
    {
        let d = parent(self.apath.as_str());
        let f = file_name(self.apath.as_str());
        match (d, f) {
            (Some(d), Some(f)) => (d, f),
            _ => {
                proof {
                    assert(false);
                }
                (String::new(), String::new())
            },
        }
    }

    /// The artist and the album of a file laid out as
    /// `.../artist/album/file`, with `_` in the folder names read as spaces.
    pub fn split_artist_album(&self) -> (r: (String, String))
        requires
            has_artist_album(self.apath@),
        ensures
            r.0@ == artist_album_spec(self.apath@).0,
            r.1@ == artist_album_spec(self.apath@).1,
    {
        let album_dir = match parent(self.apath.as_str()) {
            Some(d) => d,
            None => {
                proof {
                    assert(false);
                }
                String::new()
            },
        };
        let album = match file_name(album_dir.as_str()) {
            Some(a) => a,
            None => {
                proof {
                    assert(false);
                }
                String::new()
            },
        };
        let artist_dir = match parent(album_dir.as_str()) {
            Some(d) => d,
            None => {
                proof {
                    assert(false);
                }
                String::new()
            },
        };
        let artist = match file_name(artist_dir.as_str()) {
            Some(a) => a,
            None => {
                proof {
                    assert(false);
                }
                String::new()
            },
        };
        (replace_char(artist.as_str(), '_', ' '), replace_char(album.as_str(), '_', ' '))
    }

    /// The extension of the path with a leading `.`; the text
    /// `.split_ext did not work` when the path has none.
    pub fn split_ext(&self) -> (r: String)
        ensures
            r@ == seq!['.'] + match path_extension(self.apath@) {
                Some(e) => e,
                None => no_extension_text(),
            },
    {
        let mut r = char_string('.');
        match extension(self.apath.as_str()) {
            Some(e) => {
                r.append(e.as_str());
            },
            None => {
                r.append("split_ext did not work");
            },
        }
        r
    }
}

/// The first character of `s` as a string, or `_` when `s` is empty.
pub open spec fn first_letter_spec(s: Seq<char>) -> Seq<char> {
    if s.len() > 0 {
        seq![s[0]]
    } else {
        seq!['_']
    }
}

/// `s.chars().next().unwrap_or('_').to_string()`.
pub fn first_letter(s: &str) -> (r: String)
    ensures
        r@ == first_letter_spec(s@),
{
    let v = chars_of(s);
    if v.len() > 0 {
        char_string(v[0])
    } else {
        char_string('_')
    }
}

/// The side of the square that cover art is shown in, for an image whose
/// larger side is `largest`.
pub open spec fn display_side(largest: u32) -> u32 {
    if largest < 100 {
        100
    } else if largest < 200 {
        200
    } else {
        300
    }
}

/// The display side is the smallest multiple of 100 above the image's larger
/// side, but never more than 300: so it grows with the image, an image of
/// 200 pixels or more is always shown at 300, and a smaller one at the next
/// hundred above it.
pub proof fn lemma_display_side_next_hundred(a: u32, b: u32)
    ensures
        display_side(a) % 100 == 0,
        100 <= display_side(a) <= 300,
        a < display_side(a) || display_side(a) == 300,
        display_side(a) <= a + 100,
        a <= b ==> display_side(a) <= display_side(b),
        a >= 200 ==> display_side(a) == 300,
{
}

/// The square that cover art of the given width and height is shown in:
/// 100, 200 or 300 pixels a side, by the image's larger side.
pub fn normalize_music_image(dims: (u32, u32)) -> (r: (u32, u32))
    ensures
        r.0 == r.1,
        r.0 == display_side(if dims.0 >= dims.1 { dims.0 } else { dims.1 }),
{
    let largest: u32;
    if dims.0 == dims.1 {
        largest = dims.0;
    } else if dims.0 > dims.1 {
        largest = dims.0;
    } else {
        largest = dims.1;
    }
    let resizetup: (u32, u32);
    if largest < 100 {
        resizetup = (100, 100);
    } else if largest < 200 {
        resizetup = (200, 200);
    } else if largest < 300 {
        resizetup = (300, 300);
    } else {
        resizetup = (300, 300);
    }
    resizetup
}

} // verus!
