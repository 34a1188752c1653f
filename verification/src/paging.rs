//! Numbering of songs and cover art into pages, and the batches in which
//! rows are written.

use vstd::prelude::*;
use crate::numbers::{decimal, i64_to_string, signed_decimal};
use crate::text::{contains_seq, str_contains};
use crate::types::{Album, Artist, Song};
use vstd::arithmetic::div_mod::lemma_fundamental_div_mod_converse;

verus! {

/// The page of the `i`-th item (counting from 1) when a page holds `per_page`
/// items. With `per_page == 0` every item opens a page of its own, starting
/// at page 2.
pub open spec fn page_of(i: nat, per_page: nat) -> nat {
    if per_page == 0 {
        i + 1
    } else {
        ((i - 1) as nat) / per_page + 1
    }
}

/// The place of the `i`-th item on its page (counting from 1).
pub open spec fn place_on_page(i: nat, per_page: nat) -> nat {
    if per_page == 0 {
        1
    } else {
        ((i - 1) as nat) % per_page + 1
    }
}

/// One step of the page counter: the item after one at `(page, place)`.
pub open spec fn next_page_place(page: nat, place: nat, per_page: nat) -> (nat, nat) {
    if place < per_page {
        (page, place + 1)
    } else {
        (page + 1, 1)
    }
}

/// The counter that starts at page 1, place 0, and steps once per item, ends
/// the `i`-th step on `(page_of(i), place_on_page(i))`.
pub proof fn lemma_page_step(i: nat, per_page: nat)
    requires
        i >= 1,
    ensures
        i == 1 ==> next_page_place(1, 0, per_page) == (page_of(1, per_page), place_on_page(
            1,
            per_page,
        )),
        next_page_place(page_of(i, per_page), place_on_page(i, per_page), per_page) == (
            page_of(i + 1, per_page),
            place_on_page(i + 1, per_page),
        ),
{
    if per_page > 0 {
        let q = ((i - 1) as nat) / per_page;
        let r = ((i - 1) as nat) % per_page;
        assert(((i - 1) as nat) == q * per_page + r) by (nonlinear_arith)
            requires
                per_page > 0,
                q == ((i - 1) as nat) / per_page,
                r == ((i - 1) as nat) % per_page,
        ;
        if r + 1 < per_page {
            assert((i as nat) / per_page == q && (i as nat) % per_page == r + 1) by (nonlinear_arith)
                requires
                    per_page > 0,
                    i == q * per_page + r + 1,
                    r + 1 < per_page,
            ;
        } else {
            assert((i as nat) / per_page == q + 1 && (i as nat) % per_page == 0) by (nonlinear_arith)
                requires
                    per_page > 0,
                    i == q * per_page + r + 1,
                    r + 1 == per_page,
            ;
        }
        assert(((1 - 1) as nat) / per_page == 0 && ((1 - 1) as nat) % per_page == 0) by (nonlinear_arith)
            requires
                per_page > 0,
        ;
    }
}

/// Pages hold `per_page` items each: items on the same page are
/// consecutive, and the page number never goes down.
pub proof fn lemma_page_monotone(i: nat, j: nat, per_page: nat)
    requires
        1 <= i <= j,
    ensures
        page_of(i, per_page) <= page_of(j, per_page),
        per_page > 0 ==> page_of(j, per_page) <= page_of(i, per_page) + (j - i) / (per_page as int)
            + 1,
{
    if per_page > 0 {
        let a = ((i - 1) as nat);
        let b = ((j - 1) as nat);
        assert(a / per_page <= b / per_page) by (nonlinear_arith)
            requires
                a <= b,
                per_page > 0,
        ;
        assert(b / per_page <= a / per_page + (b - a) / (per_page as int) + 1) by (nonlinear_arith)
            requires
                a <= b,
                per_page > 0,
        ;
    }
}

/// `song` with its index and page set to the decimal notation of `index`
/// and `page`, every other field unchanged.
pub open spec fn renumbered(t: Song, song: Song, index: nat, page: nat) -> bool {
    &&& t.idx@ == decimal(index)
    &&& t.page@ == decimal(page)
    &&& t.rusicid == song.rusicid
    &&& t.albumid == song.albumid
    &&& t.title == song.title
    &&& t.imgurl == song.imgurl
    &&& t.playpath == song.playpath
    &&& t.fullpath == song.fullpath
    &&& t.extension == song.extension
    &&& t.fsizeresults == song.fsizeresults
    &&& t.first_letter == song.first_letter
}

/// The positions (counting from 0) of the entries of `s` that are `Some`.
pub open spec fn some_positions<T>(s: Seq<Option<T>>) -> Seq<int>
    decreases s.len(),
{
    if s.len() == 0 {
        Seq::empty()
    } else if s.last() is Some {
        some_positions(s.drop_last()).push(s.len() - 1)
    } else {
        some_positions(s.drop_last())
    }
}

proof fn lemma_some_positions_bounds<T>(s: Seq<Option<T>>)
    ensures
        forall|j: int|
            0 <= j < some_positions(s).len() ==> 0 <= #[trigger] some_positions(s)[j] < s.len()
                && s[some_positions(s)[j]] is Some,
    decreases s.len(),
{
    if s.len() > 0 {
        lemma_some_positions_bounds(s.drop_last());
    }
}

fn copy_song(s: &Song) -> (t: Song)
    ensures
        t == *s,
{
    Song {
        rusicid: s.rusicid.clone(),
        albumid: s.albumid.clone(),
        title: s.title.clone(),
        imgurl: s.imgurl.clone(),
        playpath: s.playpath.clone(),
        fullpath: s.fullpath.clone(),
        extension: s.extension.clone(),
        idx: s.idx.clone(),
        page: s.page.clone(),
        fsizeresults: s.fsizeresults.clone(),
        first_letter: s.first_letter.clone(),
    }
}

/// The songs read from the audio files, in file order, numbered for the
/// database: the `k`-th file (counting from 1) has index `k` and the page of
/// `k` when a page holds `offset` songs. Files whose tags could not be read
/// (`None`) keep their number but give no row.
pub fn number_songs(results: Vec<Option<(Artist, Album, Song)>>, offset: u32) -> (r: Vec<
    (Artist, Album, Song),
>)
    requires
        results@.len() < i32::MAX,
    ensures
        r@.len() == some_positions(results@).len(),
        forall|j: int|
            0 <= j < r@.len() ==> {
                let k = #[trigger] some_positions(results@)[j];
                let e = results@[k]->0;
                &&& r@[j].0 == e.0
                &&& r@[j].1 == e.1
                &&& renumbered(r@[j].2, e.2, (k + 1) as nat, page_of((k + 1) as nat, offset as nat))
            },
{
    let ghost orig = results@;
    let mut rest = results;
    let mut out: Vec<(Artist, Album, Song)> = Vec::new();
    let n = rest.len();
    let mut index: i32 = 0;
    let mut page: i32 = 1;
    let mut page_count: usize = 0;
    let mut k: usize = 0;
    proof {
        lemma_some_positions_bounds(orig);
    }
    while k < n
        invariant
            k <= n,
            n == orig.len(),
            n < i32::MAX,
            rest@ == orig.skip(k as int),
            index == k,
            k > 0 ==> page == page_of(k as nat, offset as nat) && page_count == place_on_page(
                k as nat,
                offset as nat,
            ),
            k == 0 ==> page == 1 && page_count == 0,
            page <= k + 1,
            out@.len() == some_positions(orig.take(k as int)).len(),
            forall|j: int|
                0 <= j < out@.len() ==> {
                    let p = #[trigger] some_positions(orig.take(k as int))[j];
                    let e = orig[p]->0;
                    &&& 0 <= p < k
                    &&& out@[j].0 == e.0
                    &&& out@[j].1 == e.1
                    &&& renumbered(
                        out@[j].2,
                        e.2,
                        (p + 1) as nat,
                        page_of((p + 1) as nat, offset as nat),
                    )
                },
        decreases n - k,
    {
        let item = rest.remove(0);
        proof {
            assert(item == orig[k as int]);
            assert(rest@ =~= orig.skip(k + 1));
            lemma_page_step((if k == 0 { 1 } else { k }) as nat, offset as nat);
            lemma_some_positions_bounds(orig.take(k as int));
            if offset > 0 && k > 0 {
                assert(page_of((k + 1) as nat, offset as nat) <= k + 1) by (nonlinear_arith)
                    requires
                        offset > 0,
                        page_of((k + 1) as nat, offset as nat) == ((k as nat) / (offset as nat)) + 1,
                ;
            }
        }
        index = index + 1;
        if page_count < offset as usize {
            page_count = page_count + 1;
        } else {
            page_count = 1;
            page = page + 1;
        }
        let ghost prev = out@;
        proof {
            assert(orig.take(k + 1).drop_last() =~= orig.take(k as int));
            assert(orig.take(k + 1).last() == orig[k as int]);
        }
        match item {
            Some((artist, album, song)) => {
                let mut s = copy_song(&song);
                s.idx = i64_to_string(index as i64);
                s.page = i64_to_string(page as i64);
                proof {
                    assert(signed_decimal(index as int) == decimal((k + 1) as nat));
                    assert(signed_decimal(page as int) == decimal(
                        page_of((k + 1) as nat, offset as nat),
                    ));
                }
                out.push((artist, album, s));
                proof {
                    assert forall|j: int| 0 <= j < out@.len() implies {
                        let p = #[trigger] some_positions(orig.take(k + 1))[j];
                        let e = orig[p]->0;
                        &&& 0 <= p < k + 1
                        &&& out@[j].0 == e.0
                        &&& out@[j].1 == e.1
                        &&& renumbered(
                            out@[j].2,
                            e.2,
                            (p + 1) as nat,
                            page_of((p + 1) as nat, offset as nat),
                        )
                    } by {
                        if j < prev.len() {
                            assert(some_positions(orig.take(k + 1))[j] == some_positions(
                                orig.take(k as int),
                            )[j]);
                        } else {
                            assert(some_positions(orig.take(k + 1))[j] == k);
                        }
                    }
                }
            },
            None => {},
        }
        k = k + 1;
    }
    proof {
        assert(orig.take(n as int) =~= orig);
    }
    out
}

/// The cover-art files to process, with the number and page that each is
/// stored under: the `k`-th path (counting from 1) has index `k` and the page
/// of `k` at 6 images a page; only paths that contain `Music` are processed.
pub open spec fn image_jobs_spec(paths: Seq<Seq<char>>) -> Seq<(Seq<char>, int, int)>
    decreases paths.len(),
{
    if paths.len() == 0 {
        Seq::empty()
    } else {
        let rest = image_jobs_spec(paths.drop_last());
        let k = paths.len() as nat;
        if contains_seq(paths.last(), "Music"@) {
            rest.push((paths.last(), k as int, page_of(k, 6) as int))
        } else {
            rest
        }
    }
}

/// The cover-art jobs for `paths`: path, index and page of each path that
/// contains `Music`, in order.
pub fn image_jobs(paths: Vec<String>) -> (r: Vec<(String, i32, i32)>)
    requires
        paths@.len() < i32::MAX,
    ensures
        r@.len() == image_jobs_spec(paths.deep_view()).len(),
        forall|j: int|
            0 <= j < r@.len() ==> {
                let e = #[trigger] image_jobs_spec(paths.deep_view())[j];
                r@[j].0@ == e.0 && r@[j].1 == e.1 && r@[j].2 == e.2
            },
{
    let ghost ps = paths.deep_view();
    let mut out: Vec<(String, i32, i32)> = Vec::new();
    let n = paths.len();
    let mut index: i32 = 0;
    let mut page: i32 = 1;
    let mut page_count: i32 = 0;
    let mut k: usize = 0;
    while k < n
        invariant
            k <= n,
            n == paths@.len(),
            n < i32::MAX,
            ps == paths.deep_view(),
            index == k,
            k > 0 ==> page == page_of(k as nat, 6) && page_count == place_on_page(k as nat, 6),
            k == 0 ==> page == 1 && page_count == 0,
            page <= k + 1,
            out@.len() == image_jobs_spec(ps.take(k as int)).len(),
            forall|j: int|
                0 <= j < out@.len() ==> {
                    let e = #[trigger] image_jobs_spec(ps.take(k as int))[j];
                    out@[j].0@ == e.0 && out@[j].1 == e.1 && out@[j].2 == e.2
                },
        decreases n - k,
    {
        proof {
            lemma_page_step((if k == 0 { 1 } else { k }) as nat, 6);
            if k > 0 {
                assert(page_of((k + 1) as nat, 6) <= k + 1) by (nonlinear_arith)
                    requires
                        page_of((k + 1) as nat, 6) == ((k as nat) / 6) + 1,
                ;
            }
        }
        index = index + 1;
        if page_count < 6 {
            page_count = page_count + 1;
        } else {
            page_count = 1;
            page = page + 1;
        }
        let ghost prev = out@;
        proof {
            assert(ps.take(k + 1).drop_last() =~= ps.take(k as int));
            assert(ps.take(k + 1).last() == ps[k as int]);
            assert(ps[k as int] == paths@[k as int]@);
        }
        if str_contains(paths[k].as_str(), "Music") {
            out.push((paths[k].clone(), index, page));
            proof {
                assert forall|j: int| 0 <= j < out@.len() implies {
                    let e = #[trigger] image_jobs_spec(ps.take(k + 1))[j];
                    out@[j].0@ == e.0 && out@[j].1 == e.1 && out@[j].2 == e.2
                } by {
                    if j < prev.len() {
                        assert(image_jobs_spec(ps.take(k + 1))[j] == image_jobs_spec(
                            ps.take(k as int),
                        )[j]);
                    }
                }
            }
        }
        k = k + 1;
    }
    proof {
        assert(ps.take(n as int) =~= ps);
    }
    out
}

/// How many of the first `k` entries of `present` are set.
pub open spec fn rows_in(present: Seq<bool>, k: int) -> nat
    decreases k,
{
    if k <= 0 {
        0
    } else {
        rows_in(present, k - 1) + if present[k - 1] {
            1nat
        } else {
            0nat
        }
    }
}

/// The batch of rows `[start, end)` written right after the `k`-th file
/// (counting from 0): when the file gave a row and that row fills a batch of
/// `size` rows.
pub open spec fn batch_after(present: Seq<bool>, k: int, size: nat) -> Option<(int, int)> {
    let c = rows_in(present, k + 1);
    if present[k] && c % size == 0 {
        Some((c - size, c as int))
    } else {
        None
    }
}

/// The batch written after the last file: the rows that did not fill a
/// batch, if any.
pub open spec fn last_batch(present: Seq<bool>, size: nat) -> Option<(int, int)> {
    let t = rows_in(present, present.len() as int);
    if t % size != 0 {
        Some((t - t % size, t as int))
    } else {
        None
    }
}

/// How many rows the batches written after the first `k` files hold in all.
pub open spec fn rows_written_before(present: Seq<bool>, k: int, size: nat) -> int
    decreases k,
{
    if k <= 0 {
        0
    } else {
        rows_written_before(present, k - 1, size) + match batch_after(present, k - 1, size) {
            Some(b) => b.1 - b.0,
            None => 0,
        }
    }
}

proof fn lemma_rows_written_before(present: Seq<bool>, k: int, size: nat)
    requires
        size > 0,
        0 <= k <= present.len(),
    ensures
        rows_written_before(present, k, size) == (rows_in(present, k) as int) - (rows_in(present, k) as int) % (size as int),
    decreases k,
{
    if k > 0 {
        lemma_rows_written_before(present, k - 1, size);
        let c = rows_in(present, k) as int;
        let s = size as int;
        assert(rows_in(present, k) % size == c % s);
        if present[k - 1] {
            assert(c - 1 == rows_in(present, k - 1));
            if c % s == 0 {
                assert(batch_after(present, k - 1, size) == Some((c - s, c)));
                assert((c - 1) - (c - 1) % s == c - s) by (nonlinear_arith)
                    requires
                        s > 0,
                        c >= 1,
                        c % s == 0,
                ;
            } else {
                assert(batch_after(present, k - 1, size) is None);
                assert((c - 1) - (c - 1) % s == c - c % s) by (nonlinear_arith)
                    requires
                        s > 0,
                        c >= 1,
                        c % s != 0,
                ;
            }
        } else {
            assert(c == rows_in(present, k - 1));
            assert(batch_after(present, k - 1, size) is None);
        }
    } else {
        let s = size as int;
        assert(0int % s == 0) by (nonlinear_arith)
            requires
                s > 0,
        ;
    }
}

/// Every row is written exactly once and in order: the batch after each file
/// holds `size` rows, starts where the batches before it ended and ends with
/// the row that file gave; no file leaves a full batch waiting; and the
/// batch at the end starts
/// there too and ends with the last row, holding fewer than `size` rows; when
/// there is no batch at the end, the batches after the files have written
/// every row. So rows are written at the end whenever their number is not a
/// multiple of `size`, however it compares with `size`.
pub proof fn lemma_every_row_written_once(present: Seq<bool>, size: nat)
    requires
        size > 0,
    ensures
        forall|k: int|
            0 <= k < present.len() ==> (#[trigger] batch_after(present, k, size) matches Some(b) ==> {
                &&& b.0 == rows_written_before(present, k, size)
                &&& b.1 - b.0 == size
                &&& b.1 == rows_in(present, k + 1)
            }),
        forall|k: int|
            0 <= k < present.len() ==> rows_in(present, k + 1) - #[trigger] rows_written_before(
                present,
                k + 1,
                size,
            ) < size,
        match last_batch(present, size) {
            Some(b) => {
                &&& b.0 == rows_written_before(present, present.len() as int, size)
                &&& b.1 == rows_in(present, present.len() as int)
                &&& 0 < b.1 - b.0 < size
            },
            None => rows_written_before(present, present.len() as int, size) == rows_in(
                present,
                present.len() as int,
            ),
        },
{
    let s = size as int;
    assert forall|k: int|
        0 <= k < present.len() implies (#[trigger] batch_after(present, k, size) matches Some(b) ==> {
            &&& b.0 == rows_written_before(present, k, size)
            &&& b.1 - b.0 == size
            &&& b.1 == rows_in(present, k + 1)
        }) by {
        lemma_rows_written_before(present, k, size);
        let c = rows_in(present, k + 1) as int;
        if present[k] && c % s == 0 {
            assert(c - 1 == rows_in(present, k));
            assert((c - 1) - (c - 1) % s == c - s) by (nonlinear_arith)
                requires
                    s > 0,
                    c >= 1,
                    c % s == 0,
            ;
        }
    }
    assert forall|k: int| 0 <= k < present.len() implies rows_in(present, k + 1) - #[trigger] rows_written_before(
        present,
        k + 1,
        size,
    ) < size by {
        lemma_rows_written_before(present, k + 1, size);
        let c = rows_in(present, k + 1) as int;
        assert(c % s < s) by (nonlinear_arith)
            requires
                s > 0,
        ;
    }
    lemma_rows_written_before(present, present.len() as int, size);
    let t = rows_in(present, present.len() as int) as int;
    assert(0 <= t % s < s) by (nonlinear_arith)
        requires
            s > 0,
    ;
}

/// When the song rows are written, given which files gave a row: the batch
/// written after each file, and the batch written at the end. Rows are
/// gathered until `size` of them are waiting; the rest are written last.
pub fn song_write_plan(present: &Vec<bool>, size: usize) -> (r: (Vec<Option<(usize, usize)>>, Option<
    (usize, usize),
>))
    requires
        size > 0,
    ensures
        r.0@.len() == present@.len(),
        forall|k: int|
            0 <= k < present@.len() ==> match (#[trigger] r.0@[k], batch_after(present@, k, size as nat)) {
                (Some(a), Some(b)) => a.0 == b.0 && a.1 == b.1,
                (None, None) => true,
                _ => false,
            },
        match (r.1, last_batch(present@, size as nat)) {
            (Some(a), Some(b)) => a.0 == b.0 && a.1 == b.1,
            (None, None) => true,
            _ => false,
        },
{
    let n = present.len();
    let mut plan: Vec<Option<(usize, usize)>> = Vec::new();
    let mut count: usize = 0;
    let mut waiting: usize = 0;
    for k in 0..n
        invariant
            n == present@.len(),
            size > 0,
            count == rows_in(present@, k as int),
            count <= k,
            waiting == count % size,
            plan@.len() == k,
            forall|j: int|
                0 <= j < k ==> match (#[trigger] plan@[j], batch_after(present@, j, size as nat)) {
                    (Some(a), Some(b)) => a.0 == b.0 && a.1 == b.1,
                    (None, None) => true,
                    _ => false,
                },
    {
        if present[k] {
            count = count + 1;
            proof {
                assert(count % size == if waiting + 1 == size { 0 } else { waiting + 1 }) by (nonlinear_arith)
                    requires
                        size > 0,
                        waiting == (count - 1) % (size as int),
                        waiting < size,
                        count >= 1,
                ;
            }
            if waiting + 1 == size {
                proof {
                    assert(count >= size) by (nonlinear_arith)
                        requires
                            size > 0,
                            count >= 1,
                            count % size == 0,
                    ;
                }
                waiting = 0;
                plan.push(Some((count - size, count)));
            } else {
                waiting = waiting + 1;
                plan.push(None);
            }
        } else {
            plan.push(None);
        }
    }
    proof {
        assert(waiting <= count) by (nonlinear_arith)
            requires
                size > 0,
                waiting == count % size,
        ;
        assert(present@.len() == n);
    }
    let last = if waiting != 0 {
        Some((count - waiting, count))
    } else {
        None
    };
    (plan, last)
}

/// The page of the `k`-th album (counting from 1) when albums are counted
/// into pages as `songids_for_albumid` does: with `pagination >= 2` a page
/// holds `pagination - 1` albums and the first page is cut one short; with a
/// smaller value every album stays on page 1.
pub open spec fn album_page(k: nat, pagination: int) -> int {
    if pagination >= 2 {
        1 + (k as int) / (pagination - 1)
    } else {
        1
    }
}

/// The pages of `count` albums, in order.
pub fn album_pages(count: usize, pagination: i32) -> (r: Vec<i32>)
    requires
        count < i32::MAX,
    ensures
        r@.len() == count,
        forall|k: int| 0 <= k < count ==> #[trigger] r@[k] == album_page((k + 1) as nat, pagination as int),
{
    let mut r: Vec<i32> = Vec::new();
    let mut idx: i32 = 1;
    let mut pge: i32 = 1;
    let mut k: usize = 0;
    while k < count
        invariant
            k <= count,
            count < i32::MAX,
            r@.len() == k,
            pge == album_page(k as nat, pagination as int),
            pagination >= 2 ==> idx == (k as int) % (pagination - 1) + 1,
            pagination < 2 ==> idx == k + 1,
            forall|j: int| 0 <= j < k ==> #[trigger] r@[j] == album_page((j + 1) as nat, pagination as int),
        decreases count - k,
    {
        proof {
            if pagination >= 2 {
                let p = pagination - 1;
                assert(1 + (k as int) / p <= k + 1 && (k as int) % p + 1 <= p) by (nonlinear_arith)
                    requires
                        p >= 1,
                        k >= 0,
                ;
                let q = (k as int) / p;
                let m = (k as int) % p;
                assert(k == q * p + m && 0 <= m < p) by (nonlinear_arith)
                    requires
                        p >= 1,
                        q == (k as int) / p,
                        m == (k as int) % p,
                ;
                if m + 1 < p {
                    lemma_fundamental_div_mod_converse((k + 1) as int, p, q, m + 1);
                } else {
                    assert(k + 1 == (q + 1) * p + 0) by (nonlinear_arith)
                        requires
                            k + 1 == q * p + m + 1,
                            m + 1 == p,
                    ;
                    lemma_fundamental_div_mod_converse((k + 1) as int, p, q + 1, 0);
                }
            }
        }
        idx = idx + 1;
        if idx == pagination {
            pge = pge + 1;
            idx = 1;
        }
        r.push(pge);
        k = k + 1;
    }
    r
}

} // verus!
