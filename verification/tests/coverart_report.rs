use rusicsetup::coverart::coverart_summary;
use rusicsetup::report::{directory_count_lines, directory_list_lines, missing_coverart_report};

fn s(x: &str) -> String {
    x.to_string()
}

#[test]
fn coverart_summary_sorts_directories() {
    let audio = vec![s("/M/b/1.mp3"), s("/M/a/1.mp3"), s("/M/c/1.mp3"), s("/M/a/2.mp3")];
    let images = vec![s("/M/a/c.jpg"), s("/M/d/c.jpg"), s("/M/a/d.jpg"), s("/M/c/x.png")];
    let r = coverart_summary(&audio, &images);
    assert_eq!(r.audio_dirs, vec![s("/M/a"), s("/M/b"), s("/M/c")]);
    assert_eq!(r.image_dirs, vec![s("/M/a"), s("/M/c"), s("/M/d")]);
    assert_eq!(r.missing, vec![s("/M/b")]);
    assert_eq!(r.covered, vec![s("/M/a"), s("/M/c")]);
    assert_eq!(r.orphans, vec![s("/M/d")]);
    assert_eq!(r.multi, vec![(s("/M/a"), 2)]);
    assert_eq!(r.audio_dirs.len(), r.missing.len() + r.covered.len());
    let lines = r.summary_lines(images.len());
    assert_eq!(lines[0], "Found 3 audio directories");
    assert_eq!(lines[1], "Found 4 coverart image files");
    assert_eq!(lines[2], "Found 2 directories with coverart");
    assert_eq!(lines[3], "There are 1 directories without coverart images");
    assert_eq!(lines[4], "There are 1 directories with multiple coverart images");
    assert_eq!(lines[5], "There are 1 coverart directories without audio files");
}

#[test]
fn missing_report_text() {
    assert_eq!(missing_coverart_report(&vec![]), "Missing coverart directories: 0\n");
    let dirs = vec![s("/a"), s("/b")];
    let expected = {
        let mut lines = vec![format!("Missing coverart directories: {}", dirs.len()), String::new()];
        lines.extend(dirs.iter().cloned());
        lines.join("\n")
    };
    assert_eq!(missing_coverart_report(&dirs), expected);
}

#[test]
fn directory_lists() {
    assert_eq!(directory_list_lines("H:", &vec![]), vec![s("H:"), s("- none")]);
    assert_eq!(directory_list_lines("H:", &vec![s("/a")]), vec![s("H:"), s("- /a")]);
    assert_eq!(
        directory_count_lines("C:", &vec![(s("/a"), 3)]),
        vec![s("C:"), s("- /a (3 images)")]
    );
    assert_eq!(directory_count_lines("C:", &vec![]), vec![s("C:"), s("- none")]);
}
