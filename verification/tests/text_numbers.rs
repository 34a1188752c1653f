use rusicsetup::numbers::{i64_to_string, parse_i32, parse_u32, parse_u64, parse_usize, u64_to_string};
use rusicsetup::text::{replace_char, str_contains, str_ends_with, str_eq, str_less, trim, trim_start_char};

#[test]
fn to_string_matches_std() {
    for n in [0u64, 1, 9, 10, 99, 100, 12345, u64::MAX] {
        assert_eq!(u64_to_string(n), n.to_string());
    }
    for i in [0i64, -1, 7, -10, i64::MIN, i64::MAX] {
        assert_eq!(i64_to_string(i), i.to_string());
    }
}

#[test]
fn parse_matches_std() {
    let samples = [
        "", "0", "7", "+7", "-7", "+", "-", "12a", " 12", "18446744073709551615",
        "18446744073709551616", "4294967295", "4294967296", "2147483647", "2147483648",
        "-2147483648", "-2147483649", "-0", "007", "+-1",
    ];
    for s in samples {
        assert_eq!(parse_u64(s), s.parse::<u64>().ok(), "u64 {:?}", s);
        assert_eq!(parse_u32(s), s.parse::<u32>().ok(), "u32 {:?}", s);
        assert_eq!(parse_usize(s), s.parse::<usize>().ok(), "usize {:?}", s);
        assert_eq!(parse_i32(s), s.parse::<i32>().ok(), "i32 {:?}", s);
    }
}

#[test]
fn parse_reads_back_to_string() {
    for n in [0u64, 5, 42, 1000000, u64::MAX] {
        assert_eq!(parse_u64(&u64_to_string(n)), Some(n));
    }
}

#[test]
fn trim_matches_std() {
    let samples = ["", "  ", " a ", "\t30\n", "\u{3000}x\u{2003}", "\u{85}y\u{a0}", "a b", "\u{200b}z"];
    for s in samples {
        assert_eq!(trim(s), s.trim(), "{:?}", s);
        assert_eq!(trim_start_char(s, ' '), s.trim_start_matches(' '));
    }
    assert_eq!(trim_start_char("///a/b", '/'), "a/b");
}

#[test]
fn search_and_compare() {
    assert!(str_contains("/home/Music/x", "Music"));
    assert!(!str_contains("/home/music/x", "Music"));
    assert!(str_contains("abc", ""));
    assert!(str_ends_with("a.mp3", ".mp3"));
    assert!(!str_ends_with("mp3", ".mp3"));
    assert!(str_eq("ä", "ä"));
    let words = ["", "a", "b", "ab", "aa", "B", "é", "z", "Zeta"];
    for a in words {
        for b in words {
            assert_eq!(str_less(a, b), a < b, "{:?} < {:?}", a, b);
        }
    }
    assert_eq!(replace_char("a b  c", ' ', '_'), "a_b__c");
}
