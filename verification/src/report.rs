//! The text of the cover-art report: the counts printed after the scan, the
//! directory lists, and the file of directories without cover art.

use vstd::prelude::*;
use crate::coverart::CoverartSummary;
use crate::numbers::{decimal, u64_to_string};

verus! {

/// `"{prefix}{n}{suffix}"`.
pub open spec fn count_line(prefix: Seq<char>, n: nat, suffix: Seq<char>) -> Seq<char> {
    prefix + decimal(n) + suffix
}

fn count_line_exec(prefix: &str, n: usize, suffix: &str) -> (r: String)
    ensures
        r@ == count_line(prefix@, n as nat, suffix@),
{
    let mut r = prefix.to_owned();
    let d = u64_to_string(n as u64);
    r.append(d.as_str());
    r.append(suffix);
    r
}

/// The lines printed after the scan, from the summary and the number of
/// image files found.
pub open spec fn summary_lines_spec(
    audio_dirs: nat,
    image_files: nat,
    covered: nat,
    missing: nat,
    multi: nat,
    orphans: nat,
) -> Seq<Seq<char>> {
    seq![
        count_line("Found "@, audio_dirs, " audio directories"@),
        count_line("Found "@, image_files, " coverart image files"@),
        count_line("Found "@, covered, " directories with coverart"@),
        count_line("There are "@, missing, " directories without coverart images"@),
        count_line("There are "@, multi, " directories with multiple coverart images"@),
        count_line("There are "@, orphans, " coverart directories without audio files"@),
    ]
}

impl CoverartSummary {
    /// The lines printed after the scan; `image_files` is the number of
    /// cover-art files found.
    pub fn summary_lines(&self, image_files: usize) -> (r: Vec<String>)
        ensures
            r.deep_view() == summary_lines_spec(
                self.audio_dirs@.len(),
                image_files as nat,
                self.covered@.len(),
                self.missing@.len(),
                self.multi@.len(),
                self.orphans@.len(),
            ),
    {
        let mut r: Vec<String> = Vec::new();
        r.push(count_line_exec("Found ", self.audio_dirs.len(), " audio directories"));
        r.push(count_line_exec("Found ", image_files, " coverart image files"));
        r.push(count_line_exec("Found ", self.covered.len(), " directories with coverart"));
        r.push(
            count_line_exec("There are ", self.missing.len(), " directories without coverart images"),
        );
        r.push(
            count_line_exec(
                "There are ",
                self.multi.len(),
                " directories with multiple coverart images",
            ),
        );
        r.push(
            count_line_exec(
                "There are ",
                self.orphans.len(),
                " coverart directories without audio files",
            ),
        );
        proof {
            assert(r.deep_view() =~= summary_lines_spec(
                self.audio_dirs@.len(),
                image_files as nat,
                self.covered@.len(),
                self.missing@.len(),
                self.multi@.len(),
                self.orphans@.len(),
            ));
        }
        r
    }
}

/// Each directory on a line of its own, each line after a newline.
pub open spec fn newline_each(dirs: Seq<Seq<char>>) -> Seq<char>
    decreases dirs.len(),
{
    if dirs.len() == 0 {
        Seq::empty()
    } else {
        newline_each(dirs.drop_last()) + "\n"@ + dirs.last()
    }
}

/// The text of the report file: a count line, an empty line, then the
/// directories one a line (the lines joined by newlines).
pub open spec fn missing_report_spec(dirs: Seq<Seq<char>>) -> Seq<char> {
    count_line("Missing coverart directories: "@, dirs.len(), Seq::empty()) + "\n"@ + newline_each(
        dirs,
    )
}

/// The text of the file that lists the directories without cover art.
pub fn missing_coverart_report(dirs: &Vec<String>) -> (r: String)
    ensures
        r@ == missing_report_spec(dirs.deep_view()),
{
    let ghost ds = dirs.deep_view();
    let mut r = count_line_exec("Missing coverart directories: ", dirs.len(), "");
    r.append("\n");
    let ghost head = r@;
    let n = dirs.len();
    for i in 0..n
        invariant
            n == dirs@.len(),
            ds == dirs.deep_view(),
            r@ == head + newline_each(ds.take(i as int)),
    {
        r.append("\n");
        r.append(dirs[i].as_str());
        proof {
            assert(ds.take(i + 1).drop_last() =~= ds.take(i as int));
            assert(ds[i as int] == dirs@[i as int]@);
            assert(r@ =~= head + newline_each(ds.take(i + 1)));
        }
    }
    proof {
        assert(ds.take(n as int) =~= ds);
        reveal_strlit("");
        assert(""@ =~= Seq::<char>::empty());
    }
    r
}

/// The lines of a printed directory list: the header, then `- ` and each
/// directory, or `- none` for an empty list.
pub open spec fn directory_list_spec(header: Seq<char>, dirs: Seq<Seq<char>>) -> Seq<Seq<char>> {
    if dirs.len() == 0 {
        seq![header, "- none"@]
    } else {
        seq![header] + Seq::new(dirs.len(), |i: int| "- "@ + dirs[i])
    }
}

/// The lines that print a list of directories under a header.
pub fn directory_list_lines(header: &str, dirs: &Vec<String>) -> (r: Vec<String>)
    ensures
        r.deep_view() == directory_list_spec(header@, dirs.deep_view()),
{
    let ghost ds = dirs.deep_view();
    let mut r: Vec<String> = Vec::new();
    r.push(header.to_owned());
    if dirs.len() == 0 {
        r.push("- none".to_owned());
        proof {
            assert(r.deep_view() =~= directory_list_spec(header@, ds));
        }
        return r;
    }
    let n = dirs.len();
    for i in 0..n
        invariant
            n == dirs@.len(),
            n > 0,
            ds == dirs.deep_view(),
            r.deep_view() =~= seq![header@] + Seq::new(i as nat, |k: int| "- "@ + ds[k]),
    {
        let mut line = "- ".to_owned();
        line.append(dirs[i].as_str());
        let ghost before = r.deep_view();
        r.push(line);
        proof {
            assert(r.deep_view() =~= before.push(line@));
            assert(ds[i as int] == dirs@[i as int]@);
            assert(r.deep_view() =~= seq![header@] + Seq::new((i + 1) as nat, |k: int| "- "@ + ds[k]));
        }
    }
    proof {
        assert(r.deep_view() =~= directory_list_spec(header@, ds));
    }
    r
}

/// `- {dir} ({count} images)`.
pub open spec fn count_entry(dir: Seq<char>, count: nat) -> Seq<char> {
    "- "@ + dir + " ("@ + decimal(count) + " images)"@
}

/// The lines of a printed list of directories with image counts.
pub open spec fn directory_count_spec(header: Seq<char>, dirs: Seq<(String, usize)>) -> Seq<
    Seq<char>,
> {
    if dirs.len() == 0 {
        seq![header, "- none"@]
    } else {
        seq![header] + Seq::new(dirs.len(), |i: int| count_entry(dirs[i].0@, dirs[i].1 as nat))
    }
}

/// The lines that print a list of directories and their image counts under
/// a header.
pub fn directory_count_lines(header: &str, dirs: &Vec<(String, usize)>) -> (r: Vec<String>)
    ensures
        r.deep_view() == directory_count_spec(header@, dirs@),
{
    let mut r: Vec<String> = Vec::new();
    r.push(header.to_owned());
    if dirs.len() == 0 {
        r.push("- none".to_owned());
        proof {
            assert(r.deep_view() =~= directory_count_spec(header@, dirs@));
        }
        return r;
    }
    let n = dirs.len();
    for i in 0..n
        invariant
            n == dirs@.len(),
            n > 0,
            r.deep_view() =~= seq![header@] + Seq::new(
                i as nat,
                |k: int| count_entry(dirs@[k].0@, dirs@[k].1 as nat),
            ),
    {
        let mut line = "- ".to_owned();
        line.append(dirs[i].0.as_str());
        line.append(" (");
        let c = u64_to_string(dirs[i].1 as u64);
        line.append(c.as_str());
        line.append(" images)");
        let ghost before = r.deep_view();
        r.push(line);
        proof {
            assert(r.deep_view() =~= before.push(line@));
            assert(r.deep_view() =~= seq![header@] + Seq::new(
                (i + 1) as nat,
                |k: int| count_entry(dirs@[k].0@, dirs@[k].1 as nat),
            ));
        }
    }
    proof {
        assert(r.deep_view() =~= directory_count_spec(header@, dirs@));
    }
    r
}

} // verus!
