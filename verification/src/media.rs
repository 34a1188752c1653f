//! Sorting the files found under a music folder into audio files and
//! cover-art images.

use vstd::prelude::*;
use crate::text::{contains_seq, ends_with_seq, str_contains, str_ends_with};

verus! {

/// What a file of the collection is taken for.
#[derive(Debug, Clone, Copy, PartialEq, Eq, Structural)]
pub enum MediaKind {
    Audio,
    Image,
    Other,
}

/// What the file at path `f` is taken for: only paths that contain `Music`
/// count; `.mp3` files are audio, `.jpg`, `.png`, `.webp` and `.jpeg` files
/// are images.
pub open spec fn media_kind(f: Seq<char>) -> MediaKind {
    if !contains_seq(f, "Music"@) {
        MediaKind::Other
    } else if ends_with_seq(f, ".mp3"@) {
        MediaKind::Audio
    } else if ends_with_seq(f, ".jpg"@) || ends_with_seq(f, ".png"@) || ends_with_seq(f, ".webp"@)
        || ends_with_seq(f, ".jpeg"@) {
        MediaKind::Image
    } else {
        MediaKind::Other
    }
}

/// The files of `files` of kind `k`, in their order.
pub open spec fn of_kind(files: Seq<Seq<char>>, k: MediaKind) -> Seq<Seq<char>>
    decreases files.len(),
{
    if files.len() == 0 {
        Seq::empty()
    } else if media_kind(files.last()) == k {
        of_kind(files.drop_last(), k).push(files.last())
    } else {
        of_kind(files.drop_last(), k)
    }
}

/// The files of kind `k` of each drive, one drive after the other.
pub open spec fn drives_of_kind(drives: Seq<Seq<Seq<char>>>, k: MediaKind) -> Seq<Seq<char>>
    decreases drives.len(),
{
    if drives.len() == 0 {
        Seq::empty()
    } else {
        drives_of_kind(drives.drop_last(), k) + of_kind(drives.last(), k)
    }
}

/// The files of `drives`, one drive after the other.
pub open spec fn flatten(drives: Seq<Seq<Seq<char>>>) -> Seq<Seq<char>>
    decreases drives.len(),
{
    if drives.len() == 0 {
        Seq::empty()
    } else {
        flatten(drives.drop_last()) + drives.last()
    }
}

/// What the file at path `f` is taken for.
pub fn media_kind_of(f: &str) -> (k: MediaKind)
    ensures
        k == media_kind(f@),
{
    if !str_contains(f, "Music") {
        MediaKind::Other
    } else if str_ends_with(f, ".mp3") {
        MediaKind::Audio
    } else if str_ends_with(f, ".jpg") || str_ends_with(f, ".png") || str_ends_with(f, ".webp")
        || str_ends_with(f, ".jpeg") {
        MediaKind::Image
    } else {
        MediaKind::Other
    }
}

/// The audio files and the image files among the files found under a
/// folder, each list in the order the files were found.
pub fn walk_additional_dir(files: Vec<String>) -> (r: (Vec<String>, Vec<String>))
    ensures
        r.0.deep_view() == of_kind(files.deep_view(), MediaKind::Audio),
        r.1.deep_view() == of_kind(files.deep_view(), MediaKind::Image),
{
    let ghost fs = files.deep_view();
    let mut music: Vec<String> = Vec::new();
    let mut images: Vec<String> = Vec::new();
    let n = files.len();
    for i in 0..n
        invariant
            n == files@.len(),
            fs == files.deep_view(),
            music.deep_view() == of_kind(fs.take(i as int), MediaKind::Audio),
            images.deep_view() == of_kind(fs.take(i as int), MediaKind::Image),
    {
        let f = files[i].clone();
        let k = media_kind_of(f.as_str());
        proof {
            assert(fs.take(i + 1).drop_last() =~= fs.take(i as int));
            assert(fs.take(i + 1).last() == f@);
        }
        match k {
            MediaKind::Audio => {
                music.push(f);
                proof {
                    assert(music.deep_view() =~= of_kind(fs.take(i as int), MediaKind::Audio).push(
                        fs[i as int],
                    ));
                }
            },
            MediaKind::Image => {
                images.push(f);
                proof {
                    assert(images.deep_view() =~= of_kind(fs.take(i as int), MediaKind::Image).push(
                        fs[i as int],
                    ));
                }
            },
            MediaKind::Other => {},
        }
    }
    proof {
        assert(fs.take(n as int) =~= fs);
    }
    (music, images)
}

/// The media of several drives, given the files found on each: the audio
/// files of all drives, then the images of all drives, each list drive after
/// drive and in the order the files were found.
pub fn walk_usb_drives(drive_files: Vec<Vec<String>>) -> (r: (Vec<String>, Vec<String>))
    ensures
        r.0.deep_view() == drives_of_kind(drive_files.deep_view(), MediaKind::Audio),
        r.1.deep_view() == drives_of_kind(drive_files.deep_view(), MediaKind::Image),
{
    let ghost ds = drive_files.deep_view();
    let mut add_music_list: Vec<String> = Vec::new();
    let mut add_media_img_list: Vec<String> = Vec::new();
    let drives = drive_files;
    let n = drives.len();
    let mut i: usize = 0;
    while i < n
        invariant
            i <= n,
            n == drives@.len(),
            ds == drives.deep_view(),
            add_music_list.deep_view() == drives_of_kind(ds.take(i as int), MediaKind::Audio),
            add_media_img_list.deep_view() == drives_of_kind(ds.take(i as int), MediaKind::Image),
        decreases n - i,
    {
        let media = walk_additional_dir(drives[i].clone());
        proof {
            assert(ds.take(i + 1).drop_last() =~= ds.take(i as int));
            assert(ds.take(i + 1).last() == drives@[i as int].deep_view());
        }
        let ghost old_music = add_music_list.deep_view();
        let ghost old_img = add_media_img_list.deep_view();
        let (m0, m1) = media;
        let mut m0 = m0;
        let mut m1 = m1;
        add_music_list.append(&mut m0);
        add_media_img_list.append(&mut m1);
        proof {
            assert(add_music_list.deep_view() =~= old_music + of_kind(ds[i as int], MediaKind::Audio));
            assert(add_media_img_list.deep_view() =~= old_img + of_kind(ds[i as int], MediaKind::Image));
        }
        i = i + 1;
    }
    proof {
        assert(ds.take(n as int) =~= ds);
    }
    (add_music_list, add_media_img_list)
}

proof fn lemma_of_kind_concat(a: Seq<Seq<char>>, b: Seq<Seq<char>>, k: MediaKind)
    ensures
        of_kind(a + b, k) == of_kind(a, k) + of_kind(b, k),
    decreases b.len(),
{
    if b.len() == 0 {
        assert(a + b =~= a);
        assert(of_kind(a, k) + of_kind(b, k) =~= of_kind(a, k));
    } else {
        lemma_of_kind_concat(a, b.drop_last(), k);
        assert((a + b).drop_last() =~= a + b.drop_last());
        assert((a + b).last() == b.last());
        if media_kind(b.last()) == k {
            assert(of_kind(a, k) + of_kind(b, k) =~= (of_kind(a, k) + of_kind(b.drop_last(), k)).push(
                b.last(),
            ));
        }
    }
}

/// Sorting the drives one by one gives the same files of each kind as
/// sorting all their files together.
pub proof fn lemma_drives_of_kind_flatten(drives: Seq<Seq<Seq<char>>>, k: MediaKind)
    ensures
        drives_of_kind(drives, k) == of_kind(flatten(drives), k),
    decreases drives.len(),
{
    if drives.len() > 0 {
        lemma_drives_of_kind_flatten(drives.drop_last(), k);
        lemma_of_kind_concat(flatten(drives.drop_last()), drives.last(), k);
    }
}

/// Every file that `of_kind` keeps is of that kind, and is one of the files.
pub proof fn lemma_of_kind_members(files: Seq<Seq<char>>, k: MediaKind)
    ensures
        forall|j: int|
            0 <= j < of_kind(files, k).len() ==> media_kind(#[trigger] of_kind(files, k)[j]) == k
                && files.contains(of_kind(files, k)[j]),
    decreases files.len(),
{
    if files.len() > 0 {
        lemma_of_kind_members(files.drop_last(), k);
        let r = of_kind(files.drop_last(), k);
        assert forall|j: int| 0 <= j < of_kind(files, k).len() implies media_kind(
            #[trigger] of_kind(files, k)[j],
        ) == k && files.contains(of_kind(files, k)[j]) by {
            if j < r.len() {
                assert(of_kind(files, k)[j] == r[j]);
                assert(files.drop_last().contains(r[j]));
                let w = choose|w: int| 0 <= w < files.drop_last().len() && files.drop_last()[w] == r[j];
                assert(files[w] == r[j]);
            } else {
                assert(files[files.len() - 1] == files.last());
            }
        }
    }
}


/// Only files under a music folder are taken: a path that does not contain
/// `Music` is neither audio nor cover art, whatever its ending. Audio files
/// are exactly the `.mp3` files among them, and cover art has an image
/// ending (`.jpg`, `.png`, `.webp` or `.jpeg`).
pub proof fn lemma_media_needs_music_folder(f: Seq<char>)
    ensures
        media_kind(f) != MediaKind::Other ==> contains_seq(f, "Music"@),
        !contains_seq(f, "Music"@) ==> media_kind(f) == MediaKind::Other,
        media_kind(f) == MediaKind::Audio <==> contains_seq(f, "Music"@) && ends_with_seq(f, ".mp3"@),
        media_kind(f) == MediaKind::Image ==> !ends_with_seq(f, ".mp3"@) && (ends_with_seq(f, ".jpg"@)
            || ends_with_seq(f, ".png"@) || ends_with_seq(f, ".webp"@) || ends_with_seq(f, ".jpeg"@)),
{
}

/// Whether the setup walks the USB drives, given how many it found under
/// the drives folder: whenever there is one or more.
pub fn should_walk_usb_drives(usb_drive_count: i32) -> (r: bool)
    ensures
        r == (usb_drive_count >= 1),
{
    usb_drive_count >= 1
}

} // verus!
