use rusicsetup::media::{media_kind_of, should_walk_usb_drives, walk_additional_dir, walk_usb_drives, MediaKind};
use rusicsetup::paging::{album_pages, image_jobs, number_songs, song_write_plan};
use rusicsetup::types::{Album, Artist, Song};

fn s(x: &str) -> String {
    x.to_string()
}

#[test]
fn media_kinds() {
    assert_eq!(media_kind_of("/m/Music/a/b/x.mp3"), MediaKind::Audio);
    assert_eq!(media_kind_of("/m/Music/a/b/x.jpeg"), MediaKind::Image);
    assert_eq!(media_kind_of("/m/Music/a/b/x.webp"), MediaKind::Image);
    assert_eq!(media_kind_of("/m/music/a/b/x.mp3"), MediaKind::Other);
    assert_eq!(media_kind_of("/m/Music/a/b/x.flac"), MediaKind::Other);
}

#[test]
fn walk_additional_dir_partitions() {
    let files = vec![s("/Music/a/1.mp3"), s("/Music/a/c.jpg"), s("/x/2.mp3"), s("/Music/b/2.mp3"), s("/Music/b/d.png")];
    let (m, i) = walk_additional_dir(files);
    assert_eq!(m, vec![s("/Music/a/1.mp3"), s("/Music/b/2.mp3")]);
    assert_eq!(i, vec![s("/Music/a/c.jpg"), s("/Music/b/d.png")]);
}

#[test]
fn walk_usb_drives_gives_audio_first() {
    let d1 = vec![s("/u1/Music/a.mp3"), s("/u1/Music/a.jpg")];
    let d2 = vec![s("/u2/Music/b.png"), s("/u2/Music/b.mp3")];
    let (first, second) = walk_usb_drives(vec![d1, d2]);
    assert_eq!(first, vec![s("/u1/Music/a.mp3"), s("/u2/Music/b.mp3")]);
    assert_eq!(second, vec![s("/u1/Music/a.jpg"), s("/u2/Music/b.png")]);
}

#[test]
fn one_usb_drive_is_walked() {
    assert!(!should_walk_usb_drives(0));
    assert!(!should_walk_usb_drives(-1));
    assert!(should_walk_usb_drives(1));
    assert!(should_walk_usb_drives(2));
}

fn row(t: &str) -> (Artist, Album, Song) {
    let a = Artist { artistid: s("ai"), name: s("an"), first_letter: s("A") };
    let al = Album { albumid: s("bi"), artistid: s("ai"), name: s("bn"), first_letter: s("B") };
    let so = Song {
        rusicid: s(t), albumid: s("bi"), title: s(t), imgurl: s("u"), playpath: s("p"),
        fullpath: s("f"), extension: s(".mp3"), idx: s("0"), page: s("0"), fsizeresults: s("1"),
        first_letter: s("T"),
    };
    (a, al, so)
}

#[test]
fn number_songs_pages_of_two() {
    let input = vec![Some(row("a")), None, Some(row("c")), Some(row("d")), Some(row("e"))];
    let out = number_songs(input, 2);
    let got: Vec<(String, String, String)> =
        out.iter().map(|r| (r.2.title.clone(), r.2.idx.clone(), r.2.page.clone())).collect();
    assert_eq!(
        got,
        vec![(s("a"), s("1"), s("1")), (s("c"), s("3"), s("2")), (s("d"), s("4"), s("2")), (s("e"), s("5"), s("3"))]
    );
}

#[test]
fn number_songs_zero_offset_opens_a_page_per_song() {
    let out = number_songs(vec![Some(row("a")), Some(row("b"))], 0);
    assert_eq!(out[0].2.page, "2");
    assert_eq!(out[1].2.page, "3");
}

#[test]
fn image_jobs_count_all_paths() {
    let paths: Vec<String> = (1..=8).map(|i| if i == 2 { format!("/x/{}.jpg", i) } else { format!("/Music/{}.jpg", i) }).collect();
    let jobs = image_jobs(paths);
    let got: Vec<(i32, i32)> = jobs.iter().map(|j| (j.1, j.2)).collect();
    assert_eq!(got, vec![(1, 1), (3, 1), (4, 1), (5, 1), (6, 1), (7, 2), (8, 2)]);
}

#[test]
fn album_pages_examples() {
    assert_eq!(album_pages(5, 3), vec![1, 2, 2, 3, 3]);
    assert_eq!(album_pages(3, 2), vec![2, 3, 4]);
    assert_eq!(album_pages(3, 0), vec![1, 1, 1]);
}

#[test]
fn walking_drives_one_by_one_equals_walking_all_files() {
    let d1 = vec![s("/u1/Music/a.mp3"), s("/u1/Music/a.jpg"), s("/u1/x.mp3")];
    let d2 = vec![s("/u2/Music/b.png"), s("/u2/Music/b.mp3")];
    let all: Vec<String> = d1.iter().chain(d2.iter()).cloned().collect();
    let (audio, images) = walk_usb_drives(vec![d1, d2]);
    let (audio_all, images_all) = walk_additional_dir(all);
    assert_eq!(images, images_all);
    assert_eq!(audio, audio_all);
}

#[test]
fn song_write_plan_batches() {
    let present = vec![true, false, true, true, true, false, true];
    let (plan, last) = song_write_plan(&present, 2);
    assert_eq!(plan, vec![None, None, Some((0, 2)), None, Some((2, 4)), None, None]);
    assert_eq!(last, Some((4, 5)));
    let (plan, last) = song_write_plan(&vec![true, true], 2);
    assert_eq!(plan, vec![None, Some((0, 2))]);
    assert_eq!(last, None);
    assert_eq!(song_write_plan(&vec![], 3), (vec![], None));
}
