//! The cover-art report: which music directories have cover art, which lack
//! it, which hold several images, and which images lie outside any music
//! directory.

use vstd::prelude::*;
use crate::paths::{parent_dir, parent_dir_string};
use crate::text::{
    lemma_seq_less_asymmetric, lemma_seq_less_irreflexive, lemma_seq_less_total,
    lemma_seq_less_transitive, seq_less, str_eq, str_less,
};

verus! {

/// `s` is in strictly increasing order (so it holds no entry twice).
pub open spec fn strictly_sorted(s: Seq<Seq<char>>) -> bool {
    forall|i: int, j: int| 0 <= i < j < s.len() ==> seq_less(#[trigger] s[i], #[trigger] s[j])
}

/// `d` is the directory of one of `files`.
pub open spec fn is_dir_of(files: Seq<Seq<char>>, d: Seq<char>) -> bool {
    exists|i: int| 0 <= i < files.len() && #[trigger] parent_dir(files[i]) == d
}

/// Whether `s` holds `x`.
fn holds(s: &Vec<String>, x: &str) -> (r: bool)
    ensures
        r == s.deep_view().contains(x@),
{
    let n = s.len();
    for i in 0..n
        invariant
            n == s@.len(),
            forall|j: int| 0 <= j < i ==> s.deep_view()[j] != x@,
    {
        if str_eq(s[i].as_str(), x) {
            proof {
                assert(s.deep_view()[i as int] == x@);
            }
            return true;
        }
    }
    false
}

/// Adds `x` to the strictly sorted list `v`, unless it is there already.
fn insert_sorted(v: &mut Vec<String>, x: String)
    requires
        strictly_sorted(old(v).deep_view()),
    ensures
        strictly_sorted(final(v).deep_view()),
        forall|d: Seq<char>|
            #![trigger final(v).deep_view().contains(d)]
            final(v).deep_view().contains(d) <==> (old(v).deep_view().contains(d) || d == x@),
{
    let ghost s = v.deep_view();
    let n = v.len();
    let mut i: usize = 0;
    while i < n && str_less(v[i].as_str(), x.as_str())
        invariant
            i <= n,
            n == v@.len(),
            s == v.deep_view(),
            forall|j: int| 0 <= j < i ==> seq_less(#[trigger] s[j], x@),
        decreases n - i,
    {
        i = i + 1;
    }
    if i < n && str_eq(v[i].as_str(), x.as_str()) {
        proof {
            assert(s[i as int] == x@);
            assert(s.contains(x@));
        }
        return;
    }
    proof {
        if i < n {
            lemma_seq_less_total(s[i as int], x@);
        }
    }
    let ghost xv = x@;
    v.insert(i, x);
    proof {
        let t = v.deep_view();
        assert(t =~= s.insert(i as int, xv));
        assert forall|a: int, b: int| 0 <= a < b < t.len() implies seq_less(
            #[trigger] t[a],
            #[trigger] t[b],
        ) by {
            if b < i {
            } else if b == i {
            } else if a < i {
                if a < b - 1 {
                    assert(seq_less(s[a], s[b - 1]));
                } else {
                }
            } else if a == i {
                if i < b - 1 {
                    lemma_seq_less_transitive(xv, s[i as int], s[b - 1]);
                }
            } else {
            }
        }
        assert forall|d: Seq<char>| #![trigger t.contains(d)] t.contains(d) <==> (s.contains(d)
            || d == xv) by {
            if t.contains(d) {
                let k = choose|k: int| 0 <= k < t.len() && t[k] == d;
                if k < i {
                    assert(s[k] == d);
                } else if k > i {
                    assert(s[k - 1] == d);
                }
            }
            if s.contains(d) {
                let k = choose|k: int| 0 <= k < s.len() && s[k] == d;
                if k < i {
                    assert(t[k] == d);
                } else {
                    assert(t[k + 1] == d);
                }
            }
            if d == xv {
                assert(t[i as int] == d);
            }
        }
    }
}

/// The directories of `files`, each once, in increasing order.
pub fn sorted_dirs(files: &Vec<String>) -> (r: Vec<String>)
    ensures
        strictly_sorted(r.deep_view()),
        forall|d: Seq<char>|
            #![trigger r.deep_view().contains(d)]
            r.deep_view().contains(d) <==> is_dir_of(files.deep_view(), d),
{
    let ghost fs = files.deep_view();
    let mut r: Vec<String> = Vec::new();
    let n = files.len();
    for k in 0..n
        invariant
            n == files@.len(),
            fs == files.deep_view(),
            strictly_sorted(r.deep_view()),
            forall|d: Seq<char>|
                #![trigger r.deep_view().contains(d)]
                r.deep_view().contains(d) <==> is_dir_of(fs.take(k as int), d),
    {
        let d = parent_dir_string(files[k].as_str());
        proof {
            assert(fs[k as int] == files@[k as int]@);
        }
        let ghost dv = d@;
        insert_sorted(&mut r, d);
        proof {
            let pre = fs.take(k as int);
            let post = fs.take(k + 1);
            assert forall|e: Seq<char>| #![trigger r.deep_view().contains(e)] r.deep_view().contains(e)
                <==> is_dir_of(post, e) by {
                if is_dir_of(post, e) {
                    let w = choose|w: int| 0 <= w < post.len() && #[trigger] parent_dir(post[w]) == e;
                    if w < k {
                        assert(pre[w] == post[w]);
                        assert(is_dir_of(pre, e));
                    }
                }
                if is_dir_of(pre, e) {
                    let w = choose|w: int| 0 <= w < pre.len() && #[trigger] parent_dir(pre[w]) == e;
                    assert(post[w] == pre[w]);
                    assert(is_dir_of(post, e));
                }
                if e == dv {
                    assert(post[k as int] == fs[k as int]);
                    assert(is_dir_of(post, e));
                }
            }
        }
    }
    proof {
        assert(fs.take(n as int) =~= fs);
    }
    r
}


/// The entries of the strictly sorted `a` that `b` holds (when `keep_held`)
/// or does not hold (otherwise), in order.
fn filter_held(a: &Vec<String>, b: &Vec<String>, keep_held: bool) -> (r: Vec<String>)
    requires
        strictly_sorted(a.deep_view()),
    ensures
        strictly_sorted(r.deep_view()),
        forall|d: Seq<char>|
            #![trigger r.deep_view().contains(d)]
            r.deep_view().contains(d) <==> (a.deep_view().contains(d) && b.deep_view().contains(d)
                == keep_held),
{
    let ghost sa = a.deep_view();
    let ghost sb = b.deep_view();
    let mut r: Vec<String> = Vec::new();
    let n = a.len();
    let mut k: usize = 0;
    while k < n
        invariant
            k <= n,
            n == a@.len(),
            sa == a.deep_view(),
            sb == b.deep_view(),
            strictly_sorted(sa),
            strictly_sorted(r.deep_view()),
            forall|j: int|
                #![trigger r.deep_view()[j]]
                0 <= j < r.deep_view().len() ==> exists|p: int| 0 <= p < k && #[trigger] sa[p] == r.deep_view()[j],
            forall|d: Seq<char>|
                #![trigger r.deep_view().contains(d)]
                r.deep_view().contains(d) <==> (sa.take(k as int).contains(d) && sb.contains(d)
                    == keep_held),
        decreases n - k,
    {
        let held = holds(b, a[k].as_str());
        let ghost pre = r.deep_view();
        proof {
            assert(sa[k as int] == a@[k as int]@);
        }
        if held == keep_held {
            r.push(a[k].clone());
            proof {
                let t = r.deep_view();
                assert(t =~= pre.push(sa[k as int]));
                assert forall|i: int, j: int| 0 <= i < j < t.len() implies seq_less(
                    #[trigger] t[i],
                    #[trigger] t[j],
                ) by {
                    if j == pre.len() {
                        let p = choose|p: int| 0 <= p < k && #[trigger] sa[p] == pre[i];
                        assert(seq_less(sa[p], sa[k as int]));
                    } else {
                        assert(seq_less(pre[i], pre[j]));
                    }
                }
                assert forall|j: int| #![trigger t[j]] 0 <= j < t.len() implies exists|p: int|
                    0 <= p < k + 1 && #[trigger] sa[p] == t[j] by {
                    if j == pre.len() {
                        assert(sa[k as int] == t[j]);
                    } else {
                        let p = choose|p: int| 0 <= p < k && #[trigger] sa[p] == pre[j];
                        assert(sa[p] == t[j]);
                    }
                }
            }
        }
        proof {
            let t = r.deep_view();
            if held != keep_held {
                assert(t =~= pre);
                assert forall|j: int| #![trigger t[j]] 0 <= j < t.len() implies exists|p: int|
                    0 <= p < k + 1 && #[trigger] sa[p] == t[j] by {
                    let p = choose|p: int| 0 <= p < k && #[trigger] sa[p] == pre[j];
                    assert(sa[p] == t[j]);
                }
            }
            assert forall|d: Seq<char>| #![trigger t.contains(d)] t.contains(d) <==> (sa.take(
                k + 1,
            ).contains(d) && sb.contains(d) == keep_held) by {
                lemma_take_push_contains(sa, k as int, d);
                if held == keep_held {
                    lemma_push_contains(pre, sa[k as int], d);
                }
            }
        }
        k = k + 1;
    }
    proof {
        assert(sa.take(n as int) =~= sa);
    }
    r
}

proof fn lemma_take_push_contains(s: Seq<Seq<char>>, k: int, d: Seq<char>)
    requires
        0 <= k < s.len(),
    ensures
        s.take(k + 1).contains(d) <==> (s.take(k).contains(d) || d == s[k]),
{
    assert(s.take(k + 1) =~= s.take(k).push(s[k]));
    lemma_push_contains(s.take(k), s[k], d);
}

proof fn lemma_push_contains(p: Seq<Seq<char>>, x: Seq<char>, d: Seq<char>)
    ensures
        p.push(x).contains(d) <==> (p.contains(d) || d == x),
{
    let t = p.push(x);
    if t.contains(d) {
        let w = choose|w: int| 0 <= w < t.len() && t[w] == d;
        if w < p.len() {
            assert(p[w] == d);
        }
    }
    if p.contains(d) {
        let w = choose|w: int| 0 <= w < p.len() && p[w] == d;
        assert(t[w] == d);
    }
    if d == x {
        assert(t[p.len() as int] == d);
    }
}

/// How many of `files` lie in directory `d`.
pub open spec fn count_dir(files: Seq<Seq<char>>, d: Seq<char>) -> nat
    decreases files.len(),
{
    if files.len() == 0 {
        0
    } else {
        count_dir(files.drop_last(), d) + if parent_dir(files.last()) == d {
            1nat
        } else {
            0nat
        }
    }
}

proof fn lemma_count_dir_positive(files: Seq<Seq<char>>, d: Seq<char>)
    ensures
        count_dir(files, d) > 0 <==> is_dir_of(files, d),
        count_dir(files, d) <= files.len(),
    decreases files.len(),
{
    if files.len() > 0 {
        let pre = files.drop_last();
        lemma_count_dir_positive(pre, d);
        if is_dir_of(pre, d) {
            let w = choose|w: int| 0 <= w < pre.len() && #[trigger] parent_dir(pre[w]) == d;
            assert(parent_dir(files[w]) == d);
        }
        if is_dir_of(files, d) {
            let w = choose|w: int| 0 <= w < files.len() && #[trigger] parent_dir(files[w]) == d;
            if w < files.len() - 1 {
                assert(parent_dir(pre[w]) == d);
            }
        }
        if parent_dir(files.last()) == d {
            assert(parent_dir(files[files.len() - 1]) == d);
        }
    }
}

/// How many of `files` lie in directory `d`.
fn dir_count(files: &Vec<String>, d: &str) -> (r: usize)
    ensures
        r == count_dir(files.deep_view(), d@),
{
    let ghost fs = files.deep_view();
    let n = files.len();
    let mut c: usize = 0;
    for k in 0..n
        invariant
            n == files@.len(),
            fs == files.deep_view(),
            c == count_dir(fs.take(k as int), d@),
            c <= k,
    {
        let p = parent_dir_string(files[k].as_str());
        proof {
            assert(fs.take(k + 1).drop_last() =~= fs.take(k as int));
            assert(fs[k as int] == files@[k as int]@);
        }
        if str_eq(p.as_str(), d) {
            c = c + 1;
        }
    }
    proof {
        assert(fs.take(n as int) =~= fs);
    }
    c
}

/// The directories of a list of pairs.
pub open spec fn keys(s: Seq<(String, usize)>) -> Seq<Seq<char>> {
    Seq::new(s.len(), |j: int| s[j].0@)
}

/// The directories among the strictly sorted `dirs` that hold more than one
/// of `images`, in order, each with the number of images it holds.
fn multi_dirs(dirs: &Vec<String>, images: &Vec<String>) -> (r: Vec<(String, usize)>)
    requires
        strictly_sorted(dirs.deep_view()),
    ensures
        strictly_sorted(keys(r@)),
        forall|d: Seq<char>|
            #![trigger keys(r@).contains(d)]
            keys(r@).contains(d) <==> (dirs.deep_view().contains(d) && count_dir(
                images.deep_view(),
                d,
            ) > 1),
        forall|j: int| 0 <= j < r@.len() ==> #[trigger] r@[j].1 == count_dir(images.deep_view(), r@[j].0@),
{
    let ghost sa = dirs.deep_view();
    let mut r: Vec<(String, usize)> = Vec::new();
    let n = dirs.len();
    let mut k: usize = 0;
    while k < n
        invariant
            k <= n,
            n == dirs@.len(),
            sa == dirs.deep_view(),
            strictly_sorted(sa),
            strictly_sorted(keys(r@)),
            forall|j: int|
                #![trigger keys(r@)[j]]
                0 <= j < keys(r@).len() ==> exists|p: int| 0 <= p < k && #[trigger] sa[p] == keys(r@)[j],
            forall|d: Seq<char>|
                #![trigger keys(r@).contains(d)]
                keys(r@).contains(d) <==> (sa.take(k as int).contains(d) && count_dir(
                    images.deep_view(),
                    d,
                ) > 1),
            forall|j: int|
                0 <= j < r@.len() ==> #[trigger] r@[j].1 == count_dir(images.deep_view(), r@[j].0@),
        decreases n - k,
    {
        let c = dir_count(images, dirs[k].as_str());
        let ghost pre = keys(r@);
        let ghost prer = r@;
        proof {
            assert(sa[k as int] == dirs@[k as int]@);
        }
        if c > 1 {
            r.push((dirs[k].clone(), c));
            proof {
                let t = keys(r@);
                assert(t =~= pre.push(sa[k as int]));
                assert forall|i: int, j: int| 0 <= i < j < t.len() implies seq_less(
                    #[trigger] t[i],
                    #[trigger] t[j],
                ) by {
                    if j == pre.len() {
                        let p = choose|p: int| 0 <= p < k && #[trigger] sa[p] == pre[i];
                        assert(seq_less(sa[p], sa[k as int]));
                    } else {
                        assert(seq_less(pre[i], pre[j]));
                    }
                }
                assert forall|j: int| #![trigger t[j]] 0 <= j < t.len() implies exists|p: int|
                    0 <= p < k + 1 && #[trigger] sa[p] == t[j] by {
                    if j == pre.len() {
                        assert(sa[k as int] == t[j]);
                    } else {
                        let p = choose|p: int| 0 <= p < k && #[trigger] sa[p] == pre[j];
                        assert(sa[p] == t[j]);
                    }
                }
                assert forall|j: int| 0 <= j < r@.len() implies #[trigger] r@[j].1 == count_dir(
                    images.deep_view(),
                    r@[j].0@,
                ) by {
                    if j < prer.len() {
                        assert(r@[j] == prer[j]);
                    }
                }
            }
        }
        proof {
            let t = keys(r@);
            if c <= 1 {
                assert(t =~= pre);
                assert forall|j: int| #![trigger t[j]] 0 <= j < t.len() implies exists|p: int|
                    0 <= p < k + 1 && #[trigger] sa[p] == t[j] by {
                    let p = choose|p: int| 0 <= p < k && #[trigger] sa[p] == pre[j];
                    assert(sa[p] == t[j]);
                }
            }
            assert forall|d: Seq<char>| #![trigger t.contains(d)] t.contains(d) <==> (sa.take(
                k + 1,
            ).contains(d) && count_dir(images.deep_view(), d) > 1) by {
                lemma_take_push_contains(sa, k as int, d);
                if c > 1 {
                    lemma_push_contains(pre, sa[k as int], d);
                }
            }
        }
        k = k + 1;
    }
    proof {
        assert(sa.take(n as int) =~= sa);
    }
    r
}

/// What the scan of a music collection found about its cover art.
#[derive(Debug)]
pub struct CoverartSummary {
    /// The directories holding audio files.
    pub audio_dirs: Vec<String>,
    /// The directories holding cover-art images.
    pub image_dirs: Vec<String>,
    /// Audio directories without cover art.
    pub missing: Vec<String>,
    /// Audio directories with cover art.
    pub covered: Vec<String>,
    /// Cover-art directories without audio files.
    pub orphans: Vec<String>,
    /// Directories with more than one cover-art image, with the number of
    /// images in each.
    pub multi: Vec<(String, usize)>,
}

/// `s` is the summary of the audio files `audio` and the images `images`:
/// each list holds each directory once, in increasing order, and exactly
/// the directories that its field names.
pub open spec fn is_summary_of(
    s: CoverartSummary,
    audio: Seq<Seq<char>>,
    images: Seq<Seq<char>>,
) -> bool {
    &&& strictly_sorted(s.audio_dirs.deep_view())
    &&& forall|d: Seq<char>|
        #![trigger s.audio_dirs.deep_view().contains(d)]
        s.audio_dirs.deep_view().contains(d) <==> is_dir_of(audio, d)
    &&& strictly_sorted(s.image_dirs.deep_view())
    &&& forall|d: Seq<char>|
        #![trigger s.image_dirs.deep_view().contains(d)]
        s.image_dirs.deep_view().contains(d) <==> is_dir_of(images, d)
    &&& strictly_sorted(s.missing.deep_view())
    &&& forall|d: Seq<char>|
        #![trigger s.missing.deep_view().contains(d)]
        s.missing.deep_view().contains(d) <==> (is_dir_of(audio, d) && !is_dir_of(images, d))
    &&& strictly_sorted(s.covered.deep_view())
    &&& forall|d: Seq<char>|
        #![trigger s.covered.deep_view().contains(d)]
        s.covered.deep_view().contains(d) <==> (is_dir_of(audio, d) && is_dir_of(images, d))
    &&& strictly_sorted(s.orphans.deep_view())
    &&& forall|d: Seq<char>|
        #![trigger s.orphans.deep_view().contains(d)]
        s.orphans.deep_view().contains(d) <==> (is_dir_of(images, d) && !is_dir_of(audio, d))
    &&& strictly_sorted(keys(s.multi@))
    &&& forall|d: Seq<char>|
        #![trigger keys(s.multi@).contains(d)]
        keys(s.multi@).contains(d) <==> count_dir(images, d) > 1
    &&& forall|j: int|
        0 <= j < s.multi@.len() ==> #[trigger] s.multi@[j].1 == count_dir(images, s.multi@[j].0@)
}

/// Sorts the directories of the audio files and of the cover-art images into
/// the lists of the cover-art report.
pub fn coverart_summary(audio: &Vec<String>, images: &Vec<String>) -> (r: CoverartSummary)
    ensures
        is_summary_of(r, audio.deep_view(), images.deep_view()),
{
    let audio_dirs = sorted_dirs(audio);
    let image_dirs = sorted_dirs(images);
    let missing = filter_held(&audio_dirs, &image_dirs, false);
    let covered = filter_held(&audio_dirs, &image_dirs, true);
    let orphans = filter_held(&image_dirs, &audio_dirs, false);
    let multi = multi_dirs(&image_dirs, images);
    proof {
        assert forall|d: Seq<char>| #![trigger keys(multi@).contains(d)] keys(multi@).contains(d)
            <==> count_dir(images.deep_view(), d) > 1 by {
            lemma_count_dir_positive(images.deep_view(), d);
        }
    }
    CoverartSummary { audio_dirs, image_dirs, missing, covered, orphans, multi }
}


proof fn lemma_sorted_no_duplicates(s: Seq<Seq<char>>)
    requires
        strictly_sorted(s),
    ensures
        s.no_duplicates(),
{
    assert forall|i: int, j: int| 0 <= i < s.len() && 0 <= j < s.len() && i != j implies s[i]
        != s[j] by {
        if i < j {
            assert(seq_less(s[i], s[j]));
        } else {
            assert(seq_less(s[j], s[i]));
        }
        lemma_seq_less_irreflexive(s[i]);
    }
}

/// A list that holds each of its entries once, in increasing order, is fixed
/// by what it holds: two such lists with the same entries are equal.
pub proof fn lemma_sorted_unique(a: Seq<Seq<char>>, b: Seq<Seq<char>>)
    requires
        strictly_sorted(a),
        strictly_sorted(b),
        forall|d: Seq<char>| a.contains(d) <==> b.contains(d),
    ensures
        a == b,
    decreases a.len() + b.len(),
{
    if a.len() == 0 || b.len() == 0 {
        if a.len() > 0 {
            assert(a.contains(a[0]));
        }
        if b.len() > 0 {
            assert(b.contains(b[0]));
        }
        assert(a =~= b);
    } else {
        // the first entries are the least of each list, so they agree
        assert(a.contains(a[0]));
        assert(b.contains(b[0]));
        let ia = choose|i: int| 0 <= i < a.len() && a[i] == b[0];
        let ib = choose|i: int| 0 <= i < b.len() && b[i] == a[0];
        if ia > 0 && ib > 0 {
            assert(seq_less(a[0], a[ia]));
            assert(seq_less(b[0], b[ib]));
            lemma_seq_less_asymmetric(a[0], b[0]);
        } else if ia > 0 {
            assert(seq_less(a[0], a[ia]));
            lemma_seq_less_irreflexive(a[0]);
        } else if ib > 0 {
            assert(seq_less(b[0], b[ib]));
            lemma_seq_less_irreflexive(b[0]);
        }
        assert(a[0] == b[0]);
        let ta = a.drop_first();
        let tb = b.drop_first();
        assert forall|d: Seq<char>| ta.contains(d) <==> tb.contains(d) by {
            if ta.contains(d) {
                let i = choose|i: int| 0 <= i < ta.len() && ta[i] == d;
                assert(a[i + 1] == d);
                assert(a.contains(d));
                let j = choose|j: int| 0 <= j < b.len() && b[j] == d;
                if j == 0 {
                    assert(seq_less(a[0], a[i + 1]));
                    lemma_seq_less_irreflexive(d);
                }
                assert(tb[j - 1] == d);
            }
            if tb.contains(d) {
                let i = choose|i: int| 0 <= i < tb.len() && tb[i] == d;
                assert(b[i + 1] == d);
                assert(b.contains(d));
                let j = choose|j: int| 0 <= j < a.len() && a[j] == d;
                if j == 0 {
                    assert(seq_less(b[0], b[i + 1]));
                    lemma_seq_less_irreflexive(d);
                }
                assert(ta[j - 1] == d);
            }
        }
        lemma_sorted_unique(ta, tb);
        assert(a =~= seq![a[0]] + ta);
        assert(b =~= seq![b[0]] + tb);
    }
}

proof fn lemma_split_len(whole: Seq<Seq<char>>, x: Seq<Seq<char>>, y: Seq<Seq<char>>)
    requires
        strictly_sorted(whole),
        strictly_sorted(x),
        strictly_sorted(y),
        forall|d: Seq<char>| whole.contains(d) <==> (x.contains(d) || y.contains(d)),
        forall|d: Seq<char>| !(x.contains(d) && y.contains(d)),
    ensures
        whole.len() == x.len() + y.len(),
{
    lemma_sorted_no_duplicates(whole);
    lemma_sorted_no_duplicates(x);
    lemma_sorted_no_duplicates(y);
    whole.unique_seq_to_set();
    x.unique_seq_to_set();
    y.unique_seq_to_set();
    assert(whole.to_set() =~= x.to_set() + y.to_set());
    assert(x.to_set().disjoint(y.to_set()));
    vstd::set_lib::lemma_set_disjoint_lens(x.to_set(), y.to_set());
}

/// Every audio directory either has cover art or lacks it, and every
/// cover-art directory either has audio files or not: the counts of the
/// report add up.
pub proof fn lemma_summary_counts(s: CoverartSummary, audio: Seq<Seq<char>>, images: Seq<Seq<char>>)
    requires
        is_summary_of(s, audio, images),
    ensures
        s.audio_dirs@.len() == s.missing@.len() + s.covered@.len(),
        s.image_dirs@.len() == s.covered@.len() + s.orphans@.len(),
{
    let a = s.audio_dirs.deep_view();
    let i = s.image_dirs.deep_view();
    let m = s.missing.deep_view();
    let c = s.covered.deep_view();
    let o = s.orphans.deep_view();
    assert forall|d: Seq<char>| a.contains(d) <==> (m.contains(d) || c.contains(d)) by {
        assert(a.contains(d) <==> is_dir_of(audio, d));
        assert(m.contains(d) <==> (is_dir_of(audio, d) && !is_dir_of(images, d)));
        assert(c.contains(d) <==> (is_dir_of(audio, d) && is_dir_of(images, d)));
    }
    assert forall|d: Seq<char>| !(m.contains(d) && c.contains(d)) by {
        assert(m.contains(d) <==> (is_dir_of(audio, d) && !is_dir_of(images, d)));
        assert(c.contains(d) <==> (is_dir_of(audio, d) && is_dir_of(images, d)));
    }
    lemma_split_len(a, m, c);
    assert forall|d: Seq<char>| i.contains(d) <==> (c.contains(d) || o.contains(d)) by {
        assert(i.contains(d) <==> is_dir_of(images, d));
        assert(o.contains(d) <==> (is_dir_of(images, d) && !is_dir_of(audio, d)));
        assert(c.contains(d) <==> (is_dir_of(audio, d) && is_dir_of(images, d)));
    }
    assert forall|d: Seq<char>| !(c.contains(d) && o.contains(d)) by {
        assert(o.contains(d) <==> (is_dir_of(images, d) && !is_dir_of(audio, d)));
        assert(c.contains(d) <==> (is_dir_of(audio, d) && is_dir_of(images, d)));
    }
    lemma_split_len(i, c, o);
}

} // verus!
