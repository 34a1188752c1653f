//! Unix path splitting as `std::path::Path` does it: `parent`, `file_name`
//! and `extension`, stated over the path's characters, with the components
//! by which paths compare and the joining of a directory and a file name.
//!
//! A path is read as an optional start (a root `/`, or a leading `.` that is
//! the whole path or is followed by `/`) and a body of parts separated by
//! `/`. Empty parts and `.` parts stand for no component, so repeated and
//! trailing separators and inner `.` parts are ignored.

use vstd::prelude::*;
use crate::text::{char_string, chars_of, slice_chars, string_of};

verus! {

/// Where the body of `s` starts: after a root `/`, or after a leading `.`
/// that is the whole path or is followed by `/`.
pub open spec fn body_start(s: Seq<char>) -> int {
    if s.len() > 0 && s[0] == '/' {
        1
    } else if s.len() > 0 && s[0] == '.' && (s.len() == 1 || s[1] == '/') {
        1
    } else {
        0
    }
}

/// Whether `s` starts with the current-directory component `.`.
pub open spec fn starts_with_cur_dir(s: Seq<char>) -> bool {
    s.len() > 0 && s[0] == '.' && (s.len() == 1 || s[1] == '/')
}

/// Where the last part of `t[..k]` starts: just after its last `/` at or
/// after `start`, or at `start` if there is none.
pub open spec fn part_start_at(t: Seq<char>, start: int, k: int) -> int
    decreases k - start,
{
    if k <= start {
        start
    } else if t[k - 1] == '/' {
        k
    } else {
        part_start_at(t, start, k - 1)
    }
}

/// Where the last part of `t` starts.
pub open spec fn part_start(t: Seq<char>, start: int) -> int {
    part_start_at(t, start, t.len() as int)
}

/// The last part of `t` (the text after its last separator in the body).
pub open spec fn last_part(t: Seq<char>, start: int) -> Seq<char> {
    t.subrange(part_start(t, start), t.len() as int)
}

/// `t` without its last part and the separator before it.
pub open spec fn before_last_part(t: Seq<char>, start: int) -> Seq<char> {
    let p = part_start(t, start);
    if p > start {
        t.take(p - 1)
    } else {
        t.take(start)
    }
}

/// Whether a part stands for no component: it is empty or `.`.
pub open spec fn is_empty_part(p: Seq<char>) -> bool {
    p.len() == 0 || p == seq!['.']
}

/// The last part of `t[..k]` starts between `start` and `k`, right after a
/// separator when it starts after `start`, and holds no separator.
pub proof fn lemma_part_start_bounds(t: Seq<char>, start: int, k: int)
    requires
        0 <= start <= k <= t.len(),
    ensures
        start <= part_start_at(t, start, k) <= k,
        part_start_at(t, start, k) > start ==> t[part_start_at(t, start, k) - 1] == '/',
        forall|j: int| part_start_at(t, start, k) <= j < k ==> t[j] != '/',
    decreases k - start,
{
    if k > start && t[k - 1] != '/' {
        lemma_part_start_bounds(t, start, k - 1);
    }
}

/// `t` with its trailing parts that stand for no component removed.
pub open spec fn trim_back(t: Seq<char>, start: int) -> Seq<char>
    decreases t.len(),
{
    if 0 <= start < t.len() {
        if is_empty_part(last_part(t, start)) {
            proof {
                lemma_part_start_bounds(t, start, t.len() as int);
            }
            trim_back(before_last_part(t, start), start)
        } else {
            t
        }
    } else {
        t
    }
}

/// The final component of path `s`, as `Path::file_name` gives it: none
/// when the path ends in a root, in `.` alone, in `..`, or is empty.
pub open spec fn path_file_name(s: Seq<char>) -> Option<Seq<char>> {
    let start = body_start(s);
    let t = trim_back(s, start);
    if t.len() <= start {
        None
    } else {
        let p = last_part(t, start);
        if p == seq!['.', '.'] {
            None
        } else {
            Some(p)
        }
    }
}

/// Path `s` without its final component, as `Path::parent` gives it: none
/// for the empty path and for a path that is only a root.
pub open spec fn path_parent(s: Seq<char>) -> Option<Seq<char>> {
    let start = body_start(s);
    let t = trim_back(s, start);
    if t.len() <= start {
        if starts_with_cur_dir(s) {
            Some(Seq::empty())
        } else {
            None
        }
    } else {
        Some(trim_back(before_last_part(t, start), start))
    }
}

proof fn lemma_trim_back_prefix(t: Seq<char>, start: int)
    ensures
        trim_back(t, start).len() <= t.len(),
        trim_back(t, start) == t.take(trim_back(t, start).len() as int),
        0 <= start <= t.len() ==> start <= trim_back(t, start).len(),
        0 <= start < trim_back(t, start).len() ==> !is_empty_part(
            last_part(trim_back(t, start), start),
        ),
    decreases t.len(),
{
    if 0 <= start < t.len() && is_empty_part(last_part(t, start)) {
        lemma_part_start_bounds(t, start, t.len() as int);
        let b = before_last_part(t, start);
        lemma_trim_back_prefix(b, start);
        let r = trim_back(b, start);
        assert(t.take(r.len() as int) =~= b.take(r.len() as int));
    } else {
        assert(t.take(t.len() as int) =~= t);
    }
}

/// The parent of a path is a prefix of it.
pub proof fn lemma_parent_is_prefix(s: Seq<char>)
    ensures
        path_parent(s) matches Some(d) ==> d.len() <= s.len() && s.take(d.len() as int) == d,
{
    let start = body_start(s);
    lemma_trim_back_prefix(s, start);
    let t = trim_back(s, start);
    if t.len() > start {
        lemma_part_start_bounds(t, start, t.len() as int);
        let b = before_last_part(t, start);
        lemma_trim_back_prefix(b, start);
        let r = trim_back(b, start);
        assert(s.take(r.len() as int) =~= r);
    } else if starts_with_cur_dir(s) {
        assert(s.take(0) =~= Seq::<char>::empty());
    }
}

/// A file name is a whole component: it is not empty, not `.` or `..`,
/// and holds no `/`.
pub proof fn lemma_file_name_is_component(s: Seq<char>)
    ensures
        path_file_name(s) matches Some(f) ==> {
            &&& f.len() > 0
            &&& f != seq!['.']
            &&& f != seq!['.', '.']
            &&& forall|i: int| 0 <= i < f.len() ==> f[i] != '/'
        },
{
    let start = body_start(s);
    lemma_trim_back_prefix(s, start);
    let t = trim_back(s, start);
    if t.len() > start {
        lemma_part_start_bounds(t, start, t.len() as int);
        let p = part_start(t, start);
        let f = last_part(t, start);
        assert forall|i: int| 0 <= i < f.len() implies f[i] != '/' by {
            assert(f[i] == t[p + i]);
        }
        if start >= 0 && start < t.len() {
            assert(!is_empty_part(last_part(t, start)));
        }
    }
}

/// The index of the last `.` in `f[..k]`, or -1.
pub open spec fn last_dot_at(f: Seq<char>, k: int) -> int
    decreases k,
{
    if k <= 0 {
        -1
    } else if f[k - 1] == '.' {
        k - 1
    } else {
        last_dot_at(f, k - 1)
    }
}

/// The extension of path `s`, as `Path::extension` gives it: the text after
/// the last `.` of the file name, when that `.` is not its first character.
pub open spec fn path_extension(s: Seq<char>) -> Option<Seq<char>> {
    match path_file_name(s) {
        Some(f) => {
            let d = last_dot_at(f, f.len() as int);
            if d > 0 {
                Some(f.subrange(d + 1, f.len() as int))
            } else {
                None
            }
        },
        None => None,
    }
}

proof fn lemma_part_start_take(s: Seq<char>, n: int, start: int, k: int)
    requires
        0 <= start <= k <= n <= s.len(),
    ensures
        part_start_at(s.take(n), start, k) == part_start_at(s, start, k),
    decreases k - start,
{
    if k > start {
        lemma_part_start_take(s, n, start, k - 1);
    }
}

fn body_start_exec(v: &Vec<char>) -> (r: usize)
    ensures
        r == body_start(v@),
        r <= v@.len(),
{
    if v.len() > 0 && v[0] == '/' {
        1
    } else if v.len() > 0 && v[0] == '.' && (v.len() == 1 || v[1] == '/') {
        1
    } else {
        0
    }
}

fn part_start_exec(v: &Vec<char>, start: usize, n: usize) -> (r: usize)
    requires
        start <= n <= v@.len(),
    ensures
        r == part_start(v@.take(n as int), start as int),
        start <= r <= n,
{
    let mut k = n;
    proof {
        lemma_part_start_take(v@, n as int, start as int, n as int);
    }
    while k > start && v[k - 1] != '/'
        invariant
            start <= k <= n <= v@.len(),
            part_start_at(v@, start as int, k as int) == part_start_at(v@, start as int, n as int),
        decreases k,
    {
        k = k - 1;
    }
    k
}

/// The length of `trim_back(v[..n], start)`; it is always a prefix of `v`.
fn trim_back_exec(v: &Vec<char>, start: usize, n: usize) -> (r: usize)
    requires
        start <= n <= v@.len(),
    ensures
        r <= n,
        v@.take(r as int) == trim_back(v@.take(n as int), start as int),
    decreases n,
{
    if n <= start {
        return n;
    }
    let ghost t = v@.take(n as int);
    let p = part_start_exec(v, start, n);
    proof {
        lemma_part_start_bounds(t, start as int, n as int);
    }
    let empty = p == n || (p + 1 == n && v[p] == '.');
    proof {
        assert(last_part(t, start as int) =~= v@.subrange(p as int, n as int));
        if p + 1 == n {
            assert(v@.subrange(p as int, n as int) =~= seq![v@[p as int]]);
        }
        if empty {
            assert(is_empty_part(last_part(t, start as int)));
        } else {
            if p + 1 == n {
                assert(v@.subrange(p as int, n as int) != seq!['.']) by {
                    assert(v@.subrange(p as int, n as int)[0] != '.');
                }
            }
            assert(!is_empty_part(last_part(t, start as int)));
        }
    }
    if empty {
        let m = if p > start { p - 1 } else { start };
        proof {
            assert(before_last_part(t, start as int) =~= v@.take(m as int));
        }
        trim_back_exec(v, start, m)
    } else {
        n
    }
}

/// `Path::new(s).file_name()`, as a string.
pub fn file_name(s: &str) -> (r: Option<String>)
    ensures
        match path_file_name(s@) {
            Some(f) => r is Some && r->0@ == f,
            None => r is None,
        },
{
    let v = chars_of(s);
    let start = body_start_exec(&v);
    let n = v.len();
    proof {
        assert(v@.take(n as int) =~= v@);
    }
    let t = trim_back_exec(&v, start, n);
    if t <= start {
        return None;
    }
    let p = part_start_exec(&v, start, t);
    let part = slice_chars(&v, p, t);
    proof {
        assert(last_part(v@.take(t as int), start as int) =~= part@);
    }
    if part.len() == 2 && part[0] == '.' && part[1] == '.' {
        proof {
            assert(part@ =~= seq!['.', '.']);
        }
        None
    } else {
        proof {
            if part@ == seq!['.', '.'] {
                assert(part@[0] == '.' && part@[1] == '.');
            }
        }
        Some(string_of(&part))
    }
}

/// `Path::new(s).parent()`, as a string.
pub fn parent(s: &str) -> (r: Option<String>)
    ensures
        match path_parent(s@) {
            Some(d) => r is Some && r->0@ == d,
            None => r is None,
        },
{
    let v = chars_of(s);
    let start = body_start_exec(&v);
    let n = v.len();
    proof {
        assert(v@.take(n as int) =~= v@);
    }
    let t = trim_back_exec(&v, start, n);
    if t <= start {
        if v.len() > 0 && v[0] == '.' && (v.len() == 1 || v[1] == '/') {
            let e: Vec<char> = Vec::new();
            proof {
                assert(e@ =~= Seq::<char>::empty());
            }
            return Some(string_of(&e));
        }
        return None;
    }
    let p = part_start_exec(&v, start, t);
    let m = if p > start { p - 1 } else { start };
    proof {
        assert(before_last_part(v@.take(t as int), start as int) =~= v@.take(m as int));
    }
    let d = trim_back_exec(&v, start, m);
    let out = slice_chars(&v, 0, d);
    proof {
        assert(out@ =~= v@.take(d as int));
    }
    Some(string_of(&out))
}

/// `Path::new(s).extension()`, as a string.
pub fn extension(s: &str) -> (r: Option<String>)
    ensures
        match path_extension(s@) {
            Some(e) => r is Some && r->0@ == e,
            None => r is None,
        },
{
    match file_name(s) {
        None => None,
        Some(f) => {
            let v = chars_of(f.as_str());
            let n = v.len();
            let mut k = n;
            while k > 0 && v[k - 1] != '.'
                invariant
                    k <= n,
                    n == v@.len(),
                    last_dot_at(v@, k as int) == last_dot_at(v@, n as int),
                decreases k,
            {
                k = k - 1;
            }
            if k > 1 {
                let e = slice_chars(&v, k, n);
                Some(string_of(&e))
            } else {
                None
            }
        },
    }
}


/// The components of the body of `t` (from `start` on), as `Path::components`
/// yields them: its parts between separators, leaving out those that stand
/// for no component.
pub open spec fn body_parts(t: Seq<char>, start: int) -> Seq<Seq<char>>
    decreases t.len(),
{
    if 0 <= start < t.len() {
        proof {
            lemma_part_start_bounds(t, start, t.len() as int);
        }
        let rest = body_parts(before_last_part(t, start), start);
        if is_empty_part(last_part(t, start)) {
            rest
        } else {
            rest.push(last_part(t, start))
        }
    } else {
        Seq::empty()
    }
}

/// What `Path` compares two paths by: whether the path starts with a root,
/// whether it starts with the current-directory component, and its other
/// components in order.
pub open spec fn path_components(s: Seq<char>) -> (bool, bool, Seq<Seq<char>>) {
    (s.len() > 0 && s[0] == '/', starts_with_cur_dir(s), body_parts(s, body_start(s)))
}

/// `PathBuf::push` of `f` onto `d`: an absolute `f` takes the place of `d`;
/// otherwise `f` is added after a `/`, which is left out when `d` is empty or
/// already ends in one.
pub open spec fn join_path(d: Seq<char>, f: Seq<char>) -> Seq<char> {
    if f.len() > 0 && f[0] == '/' {
        f
    } else if d.len() == 0 || d.last() == '/' {
        d + f
    } else {
        d + seq!['/'] + f
    }
}

proof fn lemma_body_parts_trim_back(x: Seq<char>, start: int)
    requires
        0 <= start,
    ensures
        body_parts(trim_back(x, start), start) == body_parts(x, start),
    decreases x.len(),
{
    if start < x.len() && is_empty_part(last_part(x, start)) {
        lemma_part_start_bounds(x, start, x.len() as int);
        lemma_body_parts_trim_back(before_last_part(x, start), start);
    }
}

proof fn lemma_part_start_after(j: Seq<char>, start: int, m: int, k: int)
    requires
        0 <= start <= m <= k <= j.len(),
        m == start || j[m - 1] == '/',
        forall|i: int| m <= i < k ==> j[i] != '/',
    ensures
        part_start_at(j, start, k) == m,
    decreases k,
{
    if k > m {
        lemma_part_start_after(j, start, m, k - 1);
    }
}

/// Adding a part `f` that holds no separator after `dp`, which ends the body
/// or ends in a separator, adds `f` to the components.
proof fn lemma_body_parts_push(dp: Seq<char>, f: Seq<char>, start: int)
    requires
        0 <= start <= dp.len(),
        dp.len() == start || dp.last() == '/',
        !is_empty_part(f),
        forall|i: int| 0 <= i < f.len() ==> f[i] != '/',
    ensures
        body_parts(dp + f, start) == body_parts(dp, start).push(f),
{
    let j = dp + f;
    let m = dp.len() as int;
    assert forall|i: int| m <= i < j.len() implies j[i] != '/' by {
        assert(j[i] == f[i - m]);
    }
    lemma_part_start_after(j, start, m, j.len() as int);
    assert(last_part(j, start) =~= f);
    if m > start {
        assert(before_last_part(j, start) =~= dp.take(m - 1));
        lemma_part_start_after(dp, start, m, m);
        assert(last_part(dp, start) =~= Seq::<char>::empty());
        assert(before_last_part(dp, start) =~= dp.take(m - 1));
    } else {
        assert(before_last_part(j, start) =~= dp);
    }
}

/// A `/` after the body adds no component.
proof fn lemma_body_parts_slash(d: Seq<char>, start: int)
    requires
        0 <= start <= d.len(),
    ensures
        body_parts(d + seq!['/'], start) == body_parts(d, start),
{
    let j = d + seq!['/'];
    let m = j.len() as int;
    lemma_part_start_after(j, start, m, m);
    assert(last_part(j, start) =~= Seq::<char>::empty());
    assert(before_last_part(j, start) =~= d);
}

/// Joining the parent of a path and its file name gives the path back: the
/// joined path has the same components, which is how `Path` compares paths.
pub proof fn lemma_join_parent_file_name(s: Seq<char>)
    requires
        path_parent(s) is Some,
        path_file_name(s) is Some,
    ensures
        path_components(join_path(path_parent(s)->0, path_file_name(s)->0)) == path_components(s),
{
    let start = body_start(s);
    lemma_trim_back_prefix(s, start);
    let t = trim_back(s, start);
    lemma_part_start_bounds(t, start, t.len() as int);
    let f = last_part(t, start);
    let b = before_last_part(t, start);
    lemma_trim_back_prefix(b, start);
    let d = trim_back(b, start);
    assert(path_parent(s)->0 == d);
    assert(path_file_name(s)->0 == f);
    lemma_file_name_is_component(s);
    lemma_parent_is_prefix(s);
    lemma_body_parts_trim_back(s, start);
    lemma_body_parts_trim_back(b, start);
    assert(body_parts(s, start) == body_parts(d, start).push(f));
    assert(f[0] != '/');
    let j = join_path(d, f);
    if d.len() > start {
        lemma_part_start_bounds(d, start, d.len() as int);
        assert(d[d.len() - 1] != '/');
    }
    if d.len() == 0 {
        lemma_body_parts_push(d, f, start);
        assert(j =~= f);
        if f.len() == 1 && f[0] == '.' {
            assert(f =~= seq!['.']);
        }
    } else if d.last() == '/' {
        lemma_body_parts_push(d, f, start);
        assert(j[0] == d[0]);
        assert(s[0] == d[0]);
    } else {
        let dp = d + seq!['/'];
        assert(j =~= dp + f);
        lemma_body_parts_push(dp, f, start);
        lemma_body_parts_slash(d, start);
        assert(j[0] == d[0]);
        assert(s[0] == d[0]);
        if d.len() >= 2 {
            assert(j[1] == d[1]);
            assert(s[1] == d[1]);
        } else {
            assert(j[1] == '/');
            if start == 0 {
                assert(last_part(d, start) =~= seq![d[0]]);
            }
        }
    }
}

/// The directory of path `p` as `parent_dir_string` gives it: its parent,
/// or `.` when it has none.
pub open spec fn parent_dir(p: Seq<char>) -> Seq<char> {
    match path_parent(p) {
        Some(d) => d,
        None => seq!['.'],
    }
}

/// `Path::new(path).parent().unwrap_or(Path::new("."))`, as a string.
pub fn parent_dir_string(path: &str) -> (r: String)
    ensures
        r@ == parent_dir(path@),
{
    match parent(path) {
        Some(d) => d,
        None => char_string('.'),
    }
}

} // verus!
