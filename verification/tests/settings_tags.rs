use rusicsetup::albums::{album_songs_from_json, playlist_positions, songids_for_albumid};
use rusicsetup::records::{create_music_thumbnail_paths, create_thumb_path, process_audio_file, process_music_images};
use rusicsetup::settings::{batch_size, health_check_due, health_check_interval, health_check_message, img_batch_size, is_truthy, pagination_offset};
use rusicsetup::tags::{artist_album_count_by_alpha, first_letter_info, tag_error_message, tag_info_from, tag_issue_line, AlphaCount, TagError, TagFields};
use rusicsetup::utils::RusicUtils;
use rusicsetup::digest::get_md5;

fn s(x: &str) -> String {
    x.to_string()
}

#[test]
fn health_check_settings() {
    assert_eq!(health_check_interval(None), Some(30));
    assert_eq!(health_check_interval(Some(s(" 45 "))), Some(45));
    assert_eq!(health_check_interval(Some(s("0"))), None);
    assert_eq!(health_check_interval(Some(s("x"))), Some(30));
    assert!(health_check_due(Some(2), 2_000_000_000));
    assert!(!health_check_due(Some(2), 1_999_999_999));
    assert!(!health_check_due(None, u128::MAX));
    assert_eq!(health_check_message("audio scan", 3, 10, 7), "Health check [audio scan]: processed 3/10 items in 7s");
}

#[test]
fn truthy_values() {
    for v in ["1", "true", " YES ", "On"] {
        assert!(is_truthy(Some(s(v))), "{}", v);
    }
    for v in ["0", "no", "", "y"] {
        assert!(!is_truthy(Some(s(v))), "{}", v);
    }
    assert!(!is_truthy(None));
}

#[test]
fn batch_sizes() {
    assert_eq!(batch_size(None), 1000);
    assert_eq!(batch_size(Some(s(" 50"))), 50);
    assert_eq!(batch_size(Some(s("0"))), 1000);
    assert_eq!(img_batch_size(None, Some(s("7"))), 7);
    assert_eq!(img_batch_size(Some(s("3")), Some(s("7"))), 3);
    assert_eq!(img_batch_size(Some(s("z")), None), 1000);
    assert_eq!(pagination_offset(" 25\n"), Some(25));
    assert_eq!(pagination_offset("-1"), None);
}

fn fields(artist: Option<&str>, album: Option<&str>, title: Option<&str>, track: Option<u32>) -> TagFields {
    TagFields { artist: artist.map(s), album: album.map(s), title: title.map(s), track }
}

#[test]
fn tag_selection() {
    assert_eq!(tag_info_from(None, None).unwrap_err(), TagError::NoTag);
    let t = tag_info_from(None, Some(fields(Some("A"), Some("B"), Some("C"), None))).unwrap();
    assert_eq!(t, (s("A"), s("B"), s("C"), s("0")));
    let t = tag_info_from(Some(fields(Some("A"), Some("B"), Some("C"), Some(4))), None).unwrap();
    assert_eq!(t.3, "4");
    assert_eq!(tag_info_from(Some(fields(None, Some("B"), None, None)), None).unwrap_err(), TagError::MissingArtist);
    assert_eq!(tag_info_from(Some(fields(Some("A"), None, None, None)), None).unwrap_err(), TagError::MissingAlbum);
    assert_eq!(tag_info_from(Some(fields(Some("A"), Some("B"), None, None)), None).unwrap_err(), TagError::MissingTitle);
    assert_eq!(tag_error_message(TagError::NoTag), "No metadata tag found");
    assert_eq!(tag_error_message(TagError::MissingTitle), "Missing title tag");
    assert_eq!(tag_issue_line(12, "/a.mp3", "Missing artist tag"), "12 | /a.mp3 | Missing artist tag\n");
}

#[test]
fn alpha_counts() {
    let r = artist_album_count_by_alpha();
    assert_eq!(r.len(), 78);
    assert_eq!(r[0], (AlphaCount::Artist, s("A")));
    assert_eq!(r[25], (AlphaCount::Artist, s("Z")));
    assert_eq!(r[26], (AlphaCount::Album, s("A")));
    assert_eq!(r[77], (AlphaCount::Song, s("Z")));
}

#[test]
fn thumbnail_and_play_paths() {
    assert_eq!(create_thumb_path("http://h", ":8080", "The Band", "Best Of"), "http://h:8080/thumbsThe_Band_-_Best_Of.jpg");
    assert_eq!(
        create_music_thumbnail_paths("/var/thumbs", "http://h", ":80", "A B", "C"),
        (s("/var/thumbs/A_B_-_C.jpg"), s("http://h:80/thumbs/A_B_-_C.jpg"))
    );
    let u = RusicUtils { apath: s("/home/pi/Music/A/B/x.mp3") };
    assert_eq!(u.create_audio_play_path("http://h", ":80"), "http://h:80/Music/A/B/x.mp3");
    let v = RusicUtils { apath: s("//media/usb/A/B/x.mp3") };
    assert_eq!(v.create_audio_play_path("http://h", ":80"), "http://h:80/media/usb/A/B/x.mp3");
}

#[test]
fn audio_rows() {
    let x = s("/home/pi/Music/The_Band/Best_Of/01 Song.mp3");
    let tag = Some((s("The Band"), s("Best Of"), s("Song"), s("1")));
    let (a, al, so) = process_audio_file(x.clone(), s("3"), s("1"), tag, s("4096"), "http://h", ":80").unwrap();
    assert_eq!(a.artistid, get_md5(s("The Band")));
    assert_eq!(a.first_letter, "T");
    assert_eq!(al.albumid, get_md5(s("Best Of")));
    assert_eq!(al.artistid, a.artistid);
    assert_eq!(so.rusicid, get_md5(x.clone()));
    assert_eq!(so.imgurl, "http://h:80/thumbsThe_Band_-_Best_Of.jpg");
    assert_eq!(so.playpath, "http://h:80/Music/The_Band/Best_Of/01 Song.mp3");
    assert_eq!(so.extension, ".mp3");
    assert_eq!((so.idx.as_str(), so.page.as_str(), so.fsizeresults.as_str()), ("3", "1", "4096"));
    assert!(process_audio_file(x, s("3"), s("1"), None, s("0"), "h", "p").is_none());
}

#[test]
fn image_rows() {
    let x = s("/home/pi/Music/A/Best_Of/cover.jpg");
    let img = process_music_images(x.clone(), 4, 1, (640, 480), s("999"), Some((s("/t/a.jpg"), s("http://t/a.jpg")))).unwrap();
    assert_eq!(img.albumid, get_md5(s("Best Of")));
    assert_eq!((img.width.as_str(), img.height.as_str()), ("300", "300"));
    assert_eq!((img.idx.as_str(), img.page.as_str()), ("4", "1"));
    assert!(process_music_images(x.clone(), 4, 1, (0, 0), s("1"), Some((s("a"), s("b")))).is_none());
    assert!(process_music_images(x, 4, 1, (10, 10), s("1"), None).is_none());
}

#[test]
fn first_letters_row() {
    let info = first_letter_info(s("/m/x.mp3"), &(s("abba"), s(""), s("Zed"), s("0")));
    assert_eq!(info.artist_first_letter, "a");
    assert_eq!(info.album_first_letter, "_");
    assert_eq!(info.song_first_letter, "Z");
    assert_eq!(info.rusicid, get_md5(s("/m/x.mp3")));
}

#[test]
fn album_song_rows() {
    let rows = songids_for_albumid(vec![s("x"), s("y")], vec![vec![s("1"), s("2")], vec![]], 2);
    assert_eq!(rows[0].rusicids, "[\"1\",\"2\"]");
    assert_eq!(rows[1].rusicids, "[]");
    assert_eq!((rows[0].page, rows[1].page), (2, 3));
    let direct = album_songs_from_json(vec![s("x")], vec![s("[]")], 5);
    assert_eq!(direct[0].page, 1);
    assert_eq!(playlist_positions(&vec![s("a"), s("b")]), vec![(s("a"), 0), (s("b"), 1)]);
}

#[test]
fn album_song_rows_for_no_albums() {
    assert_eq!(songids_for_albumid(vec![], vec![], 3).len(), 0);
}

#[test]
fn album_song_rows_escape_like_serde_json() {
    let ids = vec![
        s("plain"),
        s("q\"b\\s/"),
        s("\n\r\t\u{8}\u{c}"),
        s("\u{1}\u{1f}\u{7f}"),
        s("é♪"),
    ];
    let rows = songids_for_albumid(vec![s("a"), s("b")], vec![ids.clone(), vec![s("")]], 3);
    assert_eq!(rows[0].rusicids, serde_json::to_string(&ids).unwrap());
    assert_eq!(
        rows[0].rusicids,
        "[\"plain\",\"q\\\"b\\\\s/\",\"\\n\\r\\t\\b\\f\",\"\\u0001\\u001f\u{7f}\",\"é♪\"]"
    );
    assert_eq!(rows[1].rusicids, "[\"\"]");
    assert_eq!(rows[1].albumid, "b");
}
