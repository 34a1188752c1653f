use rusicsetup::paths::{extension, file_name, parent, parent_dir_string};
use rusicsetup::utils::RusicUtils;
use std::path::Path;

const SAMPLES: &[&str] = &[
    "", "/", ".", "..", "./", "../", "a", "a/", "/a", "/a/", "a/b", "a//b", "a/./b", "a/b/.",
    "a/b/..", "./a", "./a/b", "../a", "/a/b/c.mp3", "/home/pi/Music/Artist/Album/01 Song.mp3",
    "//a//b//", "/.", "/./a", "a/.", ".a", "a.", "a.b.c", ".bashrc", "dir/.hidden", "dir/x.",
    "x/..", "/..", "a/b/./", "./.", ". /x", "a/ ./b", "héllo/wörld.flac", "a/b.tar.gz",
];

fn std_parent(s: &str) -> Option<String> {
    Path::new(s).parent().map(|p| p.to_string_lossy().to_string())
}

fn std_file_name(s: &str) -> Option<String> {
    Path::new(s).file_name().map(|p| p.to_string_lossy().to_string())
}

fn std_extension(s: &str) -> Option<String> {
    Path::new(s).extension().map(|p| p.to_string_lossy().to_string())
}

#[test]
fn parent_agrees_with_std_path() {
    for s in SAMPLES {
        assert_eq!(parent(s), std_parent(s), "parent of {:?}", s);
    }
}

#[test]
fn file_name_agrees_with_std_path() {
    for s in SAMPLES {
        assert_eq!(file_name(s), std_file_name(s), "file name of {:?}", s);
    }
}

#[test]
fn extension_agrees_with_std_path() {
    for s in SAMPLES {
        assert_eq!(extension(s), std_extension(s), "extension of {:?}", s);
    }
}

#[test]
fn parent_dir_string_defaults_to_dot() {
    assert_eq!(parent_dir_string("/"), ".");
    assert_eq!(parent_dir_string(""), ".");
    assert_eq!(parent_dir_string("song.mp3"), "");
    assert_eq!(parent_dir_string("/m/Music/a/b/s.mp3"), "/m/Music/a/b");
}

#[test]
fn split_base_dir_filename_splits_path() {
    let u = RusicUtils { apath: "/home/pi/Music/A/B/track.mp3".to_string() };
    assert_eq!(
        u.split_base_dir_filename(),
        ("/home/pi/Music/A/B".to_string(), "track.mp3".to_string())
    );
}

#[test]
fn split_artist_album_reads_folders() {
    let u = RusicUtils { apath: "/home/pi/Music/The_Band/Best_Of/01.mp3".to_string() };
    assert_eq!(u.split_artist_album(), ("The Band".to_string(), "Best Of".to_string()));
}

#[test]
fn split_ext_with_and_without_extension() {
    let u = RusicUtils { apath: "/m/a/b/song.mp3".to_string() };
    assert_eq!(u.split_ext(), ".mp3");
    let v = RusicUtils { apath: "/m/a/b/README".to_string() };
    assert_eq!(v.split_ext(), ".split_ext did not work");
}

#[test]
fn parent_is_prefix_and_file_name_is_one_component() {
    for s in SAMPLES {
        if let Some(d) = parent(s) {
            assert!(s.starts_with(d.as_str()), "{:?} / {:?}", s, d);
        }
        if let Some(f) = file_name(s) {
            assert!(!f.is_empty() && f != "." && f != ".." && !f.contains('/'), "{:?}", f);
        }
    }
}

#[test]
fn artist_album_names_are_clean() {
    let u = RusicUtils { apath: "/m/A_b__c/_x_/s.mp3".to_string() };
    let (artist, album) = u.split_artist_album();
    assert_eq!((artist.as_str(), album.as_str()), ("A b  c", " x "));
    assert!(!artist.contains('_') && !album.contains('_'));
}

#[test]
fn path_functions_agree_with_std_on_all_short_paths() {
    let alphabet = ['a', '.', '/', 'b'];
    let mut paths: Vec<String> = vec![String::new()];
    let mut frontier: Vec<String> = vec![String::new()];
    for _ in 0..6 {
        let mut next = Vec::new();
        for p in &frontier {
            for c in alphabet {
                let mut q = p.clone();
                q.push(c);
                next.push(q);
            }
        }
        paths.extend(next.iter().cloned());
        frontier = next;
    }
    for s in &paths {
        assert_eq!(parent(s), std_parent(s), "parent of {:?}", s);
        assert_eq!(file_name(s), std_file_name(s), "file name of {:?}", s);
        assert_eq!(extension(s), std_extension(s), "extension of {:?}", s);
    }
}

#[test]
fn joining_parent_and_file_name_gives_the_path_back() {
    let mut checked = 0;
    for s in SAMPLES {
        if parent(s).is_some() && file_name(s).is_some() {
            let u = RusicUtils { apath: s.to_string() };
            let (d, f) = u.split_base_dir_filename();
            assert_eq!(Path::new(&d).join(&f), Path::new(s), "split of {:?}", s);
            checked += 1;
        }
    }
    assert!(checked > 20);
    let u = RusicUtils { apath: "song.mp3".to_string() };
    assert_eq!(u.split_base_dir_filename(), (String::new(), "song.mp3".to_string()));
}
