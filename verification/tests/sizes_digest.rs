use rusicsetup::digest::{get_md5, to_hex_lower};
use rusicsetup::sizes::{convert_bytes, file_size_text, media_total_size};
use rusicsetup::utils::{first_letter, normalize_music_image};

#[test]
fn convert_bytes_examples() {
    assert_eq!(convert_bytes(0), "0 B");
    assert_eq!(convert_bytes(1023), "1023 B");
    assert_eq!(convert_bytes(1024), "1 KB");
    assert_eq!(convert_bytes(1536), "1 KB");
    assert_eq!(convert_bytes(5 * 1024 * 1024 + 3), "5 MB");
    assert_eq!(convert_bytes(usize::MAX), "15 EB");
}

#[test]
fn convert_bytes_matches_format_of_integer() {
    for n in [0usize, 1, 1023, 1024, 1048575, 1048576, 3_000_000_000] {
        let mut b = n;
        let mut i = 0;
        let units = ["B", "KB", "MB", "GB", "TB", "PB", "EB", "ZB", "YB"];
        while b >= 1024 {
            b /= 1024;
            i += 1;
        }
        assert_eq!(convert_bytes(n), format!("{:.2} {}", b, units[i]));
    }
}

#[test]
fn media_total_size_sums_readable_sizes() {
    let sizes = vec!["1024".to_string(), "oops".to_string(), "1024".to_string(), " 5".to_string()];
    assert_eq!(media_total_size(sizes), "2 KB");
    assert_eq!(media_total_size(Vec::new()), "0 B");
}

#[test]
fn file_size_text_falls_back_to_zero() {
    assert_eq!(file_size_text(Some(4096)), "4096");
    assert_eq!(file_size_text(None), "0");
}

#[test]
fn md5_ids_are_lower_hex() {
    assert_eq!(get_md5("hello world".to_string()), "5eb63bbbe01eeed093cb22bb8f5acdc3");
    assert_eq!(get_md5(String::new()), "d41d8cd98f00b204e9800998ecf8427e");
    assert_eq!(to_hex_lower(&vec![0x00, 0xab, 0x0f]), "00ab0f");
}

#[test]
fn normalize_music_image_examples() {
    assert_eq!(normalize_music_image((50, 80)), (100, 100));
    assert_eq!(normalize_music_image((100, 100)), (200, 200));
    assert_eq!(normalize_music_image((150, 250)), (300, 300));
    assert_eq!(normalize_music_image((1000, 20)), (300, 300));
    assert_eq!(normalize_music_image((0, 0)), (100, 100));
}

#[test]
fn first_letter_or_underscore() {
    assert_eq!(first_letter("Abba"), "A");
    assert_eq!(first_letter("été"), "é");
    assert_eq!(first_letter(""), "_");
}
