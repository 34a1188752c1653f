//! Building the database rows for an audio file and a cover-art image from
//! what was read about the file, and the web and disk paths they refer to.

use vstd::prelude::*;
use crate::digest::{get_md5, hex_lower, md5_digest};
use crate::numbers::{decimal, i64_to_string, signed_decimal, u64_to_string};
use crate::paths::path_extension;
use crate::text::{
    chars_of, contains_seq, find_first, occurs_at, replace_char,
    replace_char_spec, slice_chars, string_of, trim_start_char, trim_start_char_spec,
};
use crate::types::{Album, AlbumImage, Artist, Song};
use crate::utils::{
    artist_album_spec, display_side, first_letter, first_letter_spec, has_artist_album,
    no_extension_text, normalize_music_image, RusicUtils,
};

verus! {

/// The identifier of a name or path: `get_md5` of it.
pub open spec fn id_of(s: Seq<char>) -> Seq<char> {
    hex_lower(md5_digest(vstd::utf8::encode_utf8(s)))
}

/// The web path of an album's thumbnail, as the song rows refer to it:
/// address, port, `/thumbs`, artist, `_-_`, album and `.jpg`, with spaces
/// made underscores.
pub open spec fn thumb_path_spec(
    http_addr: Seq<char>,
    port: Seq<char>,
    art: Seq<char>,
    alb: Seq<char>,
) -> Seq<char> {
    replace_char_spec(http_addr + port + "/thumbs"@ + art + "_-_"@ + alb + ".jpg"@, ' ', '_')
}

/// The thumbnail web path of an album, from the server address and port.
pub fn create_thumb_path(http_addr: &str, port: &str, art: &str, alb: &str) -> (r: String)
    ensures
        r@ == thumb_path_spec(http_addr@, port@, art@, alb@),
{
    let mut npath = http_addr.to_owned();
    npath.append(port);
    npath.append("/thumbs");
    npath.append(art);
    npath.append("_-_");
    npath.append(alb);
    npath.append(".jpg");
    replace_char(npath.as_str(), ' ', '_')
}

/// The file name of an album's thumbnail: `/`, artist, `_-_`, album, `.jpg`.
pub open spec fn thumb_file_name(art: Seq<char>, alb: Seq<char>) -> Seq<char> {
    "/"@ + art + "_-_"@ + alb + ".jpg"@
}

/// Where an album's thumbnail is saved on disk, and its web path: the
/// thumbnail file name after the thumbnail directory, and after the server
/// address, port and `/thumbs`; spaces made underscores in both.
pub fn create_music_thumbnail_paths(
    thumbs_dir: &str,
    http_addr: &str,
    port: &str,
    art: &str,
    alb: &str,
) -> (r: (String, String))
    ensures
        r.0@ == replace_char_spec(thumbs_dir@ + thumb_file_name(art@, alb@), ' ', '_'),
        r.1@ == replace_char_spec(http_addr@ + port@ + "/thumbs"@ + thumb_file_name(art@, alb@), ' ', '_'),
{
    let mut fname = "/".to_owned();
    fname.append(art);
    fname.append("_-_");
    fname.append(alb);
    fname.append(".jpg");
    let mut disk = thumbs_dir.to_owned();
    disk.append(fname.as_str());
    let mut web = http_addr.to_owned();
    web.append(port);
    web.append("/thumbs");
    web.append(fname.as_str());
    proof {
        assert(disk@ =~= thumbs_dir@ + thumb_file_name(art@, alb@));
        assert(web@ =~= http_addr@ + port@ + "/thumbs"@ + thumb_file_name(art@, alb@));
    }
    (replace_char(disk.as_str(), ' ', '_'), replace_char(web.as_str(), ' ', '_'))
}

/// The first index at which `p` occurs in `s` (when it occurs).
pub open spec fn first_index(s: Seq<char>, p: Seq<char>) -> int {
    choose|i: int| occurs_at(s, p, i) && forall|j: int| 0 <= j < i ==> !occurs_at(s, p, j)
}

/// The part of a file's path that its web path ends with: from the first
/// `/Music/` on, as `Music/...`; or, for a path without `/Music/`, the path
/// without its leading slashes.
pub open spec fn play_tail(p: Seq<char>) -> Seq<char> {
    if contains_seq(p, "/Music/"@) {
        "Music/"@ + p.subrange(first_index(p, "/Music/"@) + "/Music/"@.len(), p.len() as int)
    } else {
        trim_start_char_spec(p, '/')
    }
}

/// The web path of an audio file: address, port, `/` and the play tail.
pub open spec fn play_path_spec(p: Seq<char>, http_addr: Seq<char>, port: Seq<char>) -> Seq<char> {
    http_addr + port + "/"@ + play_tail(p)
}

impl RusicUtils {
    /// The web path that plays this audio file, on the server at
    /// `http_addr` and `port`.
    pub fn create_audio_play_path(&self, http_addr: &str, port: &str) -> (r: String)
        ensures
            r@ == play_path_spec(self.apath@, http_addr@, port@),
    {
        let v = chars_of(self.apath.as_str());
        let pat = chars_of("/Music/");
        let assend = match find_first(&v, &pat) {
            Some(i) => {
                proof {
                    let c = first_index(v@, pat@);
                    assert(contains_seq(v@, pat@));
                    if c < i {
                    } else if c > i {
                    }
                    assert(c == i);
                    assert(i + pat@.len() <= v@.len());
                    assert(v@.len() == v.len());
                    assert(pat@.len() == pat.len());
                }
                let rest = slice_chars(&v, i + pat.len(), v.len());
                let mut a = "Music/".to_owned();
                let rs = string_of(&rest);
                a.append(rs.as_str());
                a
            },
            None => trim_start_char(self.apath.as_str(), '/'),
        };
        let mut playpath = http_addr.to_owned();
        playpath.append(port);
        playpath.append("/");
        playpath.append(assend.as_str());
        playpath
    }
}

/// The tags read from an audio file: artist, album, title and track number
/// (as text).
pub type TagInfo = (String, String, String, String);

/// The text of `split_ext` for a path.
pub open spec fn split_ext_spec(p: Seq<char>) -> Seq<char> {
    seq!['.'] + match path_extension(p) {
        Some(e) => e,
        None => no_extension_text(),
    }
}

/// The rows of an audio file at path `x`: its artist, album and song.
pub open spec fn audio_rows_spec(
    r: (Artist, Album, Song),
    x: Seq<char>,
    index: Seq<char>,
    page: Seq<char>,
    tag: (Seq<char>, Seq<char>, Seq<char>),
    file_size: Seq<char>,
    http_addr: Seq<char>,
    port: Seq<char>,
) -> bool {
    let (artist, album, song) = r;
    let art_alb = artist_album_spec(x);
    &&& artist.artistid@ == id_of(tag.0)
    &&& artist.name@ == tag.0
    &&& artist.first_letter@ == first_letter_spec(tag.0)
    &&& album.albumid@ == id_of(tag.1)
    &&& album.artistid@ == id_of(tag.0)
    &&& album.name@ == tag.1
    &&& album.first_letter@ == first_letter_spec(tag.1)
    &&& song.rusicid@ == id_of(x)
    &&& song.albumid@ == id_of(tag.1)
    &&& song.title@ == tag.2
    &&& song.imgurl@ == thumb_path_spec(http_addr, port, art_alb.0, art_alb.1)
    &&& song.playpath@ == play_path_spec(x, http_addr, port)
    &&& song.fullpath@ == x
    &&& song.extension@ == split_ext_spec(x)
    &&& song.idx@ == index
    &&& song.page@ == page
    &&& song.fsizeresults@ == file_size
    &&& song.first_letter@ == first_letter_spec(tag.2)
}

/// The artist, album and song rows of the audio file at `x`, from its tags
/// (`None` when they could not be read, which gives no rows), its size text,
/// its index and page, and the server's address and port.
pub fn process_audio_file(
    x: String,
    index: String,
    page: String,
    tag: Option<TagInfo>,
    file_size: String,
    http_addr: &str,
    port: &str,
) -> (r: Option<(Artist, Album, Song)>)
    requires
        has_artist_album(x@),
    ensures
        r is Some <==> tag is Some,
        r is Some ==> audio_rows_spec(
            r->0,
            x@,
            index@,
            page@,
            ((tag->0).0@, (tag->0).1@, (tag->0).2@),
            file_size@,
            http_addr@,
            port@,
        ),
{
    let fu = RusicUtils { apath: x.clone() };
    let rusic_id = get_md5(x.clone());
    let art_alb = fu.split_artist_album();
    let tag = match tag {
        Some(t) => t,
        None => {
            return None;
        },
    };
    let tag_artist = tag.0.clone();
    let tag_album = tag.1.clone();
    let tag_song = tag.2.clone();
    let artist_id = get_md5(tag.0.clone());
    let album_id = get_md5(tag.1.clone());
    let img_url = create_thumb_path(http_addr, port, art_alb.0.as_str(), art_alb.1.as_str());
    let play_path = fu.create_audio_play_path(http_addr, port);
    let artist = Artist {
        artistid: artist_id.clone(),
        name: tag_artist.clone(),
        first_letter: first_letter(tag_artist.as_str()),
    };
    let album = Album {
        albumid: album_id.clone(),
        artistid: artist_id,
        name: tag_album.clone(),
        first_letter: first_letter(tag_album.as_str()),
    };
    let song = Song {
        rusicid: rusic_id,
        albumid: album_id,
        title: tag_song.clone(),
        imgurl: img_url,
        playpath: play_path,
        fullpath: x.clone(),
        extension: fu.split_ext(),
        idx: index,
        page,
        fsizeresults: file_size,
        first_letter: first_letter(tag_song.as_str()),
    };
    Some((artist, album, song))
}

/// The cover-art row of the image at `x`: `None` when its dimensions could
/// not be read (`(0, 0)`) or no thumbnail could be made (`thumb` is `None`);
/// otherwise the album's id, the display size, the size text, the path, the
/// thumbnail's disk and web paths, and the index and page.
pub fn process_music_images(
    x: String,
    index: i32,
    pageg: i32,
    dims: (u32, u32),
    file_size: String,
    thumb: Option<(String, String)>,
) -> (r: Option<AlbumImage>)
    requires
        has_artist_album(x@),
    ensures
        r is Some <==> (dims != (0u32, 0u32) && thumb is Some),
        r is Some ==> {
            let img = r->0;
            let side = display_side(if dims.0 >= dims.1 { dims.0 } else { dims.1 }) as nat;
            &&& img.albumid@ == id_of(artist_album_spec(x@).1)
            &&& img.width@ == decimal(side)
            &&& img.height@ == decimal(side)
            &&& img.filesize@ == file_size@
            &&& img.fullpath@ == x@
            &&& img.thumbpath@ == (thumb->0).0@
            &&& img.idx@ == signed_decimal(index as int)
            &&& img.page@ == signed_decimal(pageg as int)
            &&& img.httpthumbpath@ == (thumb->0).1@
        },
{
    let foo2 = RusicUtils { apath: x.clone() };
    let artalb = foo2.split_artist_album();
    if dims.0 == 0 && dims.1 == 0 {
        return None;
    }
    let newdims = normalize_music_image(dims);
    let width_r = u64_to_string(newdims.0 as u64);
    let height_r = u64_to_string(newdims.1 as u64);
    let (thumb_path, http_thumb_path) = match thumb {
        Some(t) => t,
        None => {
            return None;
        },
    };
    let album_image = AlbumImage {
        albumid: get_md5(artalb.1.clone()),
        width: width_r,
        height: height_r,
        filesize: file_size,
        fullpath: x.clone(),
        thumbpath: thumb_path,
        idx: i64_to_string(index as i64),
        page: i64_to_string(pageg as i64),
        httpthumbpath: http_thumb_path,
    };
    Some(album_image)
}

} // verus!
