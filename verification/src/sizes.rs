//! Human-readable sizes: a byte count in the largest unit that keeps it at
//! one or more, and the total size of a list of files.

use vstd::prelude::*;
use crate::numbers::{decimal, parse_bounded, parse_usize, u64_to_string};
use crate::text::char_string;

verus! {

/// `1024` to the power `k`.
pub open spec fn pow1024(k: nat) -> nat
    decreases k,
{
    if k == 0 {
        1
    } else {
        1024 * pow1024((k - 1) as nat)
    }
}

/// `n` divided by 1024 as often as it stays at 1024 or more: the value and
/// the number of divisions.
pub open spec fn scaled(n: nat) -> (nat, nat)
    decreases n,
{
    if n < 1024 {
        (n, 0)
    } else {
        let r = scaled(n / 1024);
        (r.0, r.1 + 1)
    }
}

/// The unit after `k` divisions by 1024.
pub open spec fn unit_name(k: nat) -> Seq<char> {
    if k == 0 {
        "B"@
    } else if k == 1 {
        "KB"@
    } else if k == 2 {
        "MB"@
    } else if k == 3 {
        "GB"@
    } else if k == 4 {
        "TB"@
    } else if k == 5 {
        "PB"@
    } else if k == 6 {
        "EB"@
    } else if k == 7 {
        "ZB"@
    } else {
        "YB"@
    }
}

/// The text of `convert_bytes(n)`: the scaled value, a space and the unit.
pub open spec fn convert_bytes_spec(n: nat) -> Seq<char> {
    decimal(scaled(n).0) + seq![' '] + unit_name(scaled(n).1)
}

proof fn lemma_scaled_bound(n: nat, m: nat)
    requires
        m >= 1,
        n < pow1024(m),
    ensures
        scaled(n).1 < m,
    decreases n,
{
    if n >= 1024 {
        let p = pow1024((m - 1) as nat);
        assert(n / 1024 < p) by (nonlinear_arith)
            requires
                n < 1024 * p,
        ;
        if m == 1 {
            assert(pow1024(0) == 1);
        } else {
            lemma_scaled_bound(n / 1024, (m - 1) as nat);
        }
    }
}

/// The scaled value is below 1024, and `n` lies between it and the next
/// value, in units of `1024^k`.
pub proof fn lemma_scaled_range(n: nat)
    ensures
        scaled(n).0 < 1024,
        scaled(n).0 * pow1024(scaled(n).1) <= n,
        n < (scaled(n).0 + 1) * pow1024(scaled(n).1),
    decreases n,
{
    if n >= 1024 {
        let q = n / 1024;
        lemma_scaled_range(q);
        let v = scaled(q).0;
        let k = scaled(q).1;
        let p = pow1024(k);
        assert(pow1024(k + 1) == 1024 * p);
        assert(v * (1024 * p) <= n && n < (v + 1) * (1024 * p)) by (nonlinear_arith)
            requires
                v * p <= q,
                q < (v + 1) * p,
                q == n / 1024,
        ;
        assert(scaled(n).0 == v && scaled(n).1 == k + 1);
        assert(pow1024(scaled(n).1) == 1024 * p);
    } else {
        assert(scaled(n) == (n, 0nat));
        assert(pow1024(0) == 1);
        assert(n * 1 == n) by (nonlinear_arith);
        assert((n + 1) * 1 == n + 1) by (nonlinear_arith);
    }
}

/// The units of a size, in order, each 1024 times the one before.
pub open spec fn size_units() -> Seq<Seq<char>> {
    seq!["B"@, "KB"@, "MB"@, "GB"@, "TB"@, "PB"@, "EB"@, "ZB"@, "YB"@]
}

proof fn lemma_scaled_positive(n: nat)
    ensures
        n >= 1 ==> scaled(n).0 >= 1,
    decreases n,
{
    if n >= 1024 {
        lemma_scaled_positive(n / 1024);
    }
}

/// The text for `n` bytes names a unit `1024^k`, the `k`-th of B, KB, MB,
/// GB, TB, PB, EB, ZB, YB, and the whole number `v` of such units that `n`
/// holds: `v * 1024^k <= n < (v + 1) * 1024^k`, with `v` below 1024, and at
/// least 1 unless the unit is B.
pub proof fn lemma_convert_bytes_names_unit(n: nat)
    requires
        n <= usize::MAX,
    ensures
        ({
            let v = scaled(n).0;
            let k = scaled(n).1;
            &&& k < size_units().len()
            &&& convert_bytes_spec(n) == decimal(v) + seq![' '] + size_units()[k as int]
            &&& v * pow1024(k) <= n < (v + 1) * pow1024(k)
            &&& v < 1024
            &&& k > 0 ==> v >= 1
        }),
{
    reveal_with_fuel(pow1024, 8);
    assert(pow1024(7) == 1180591620717411303424nat);
    lemma_scaled_bound(n, 7);
    lemma_scaled_range(n);
    lemma_scaled_positive(n);
    let k = scaled(n).1;
    if k > 0 {
        assert(n >= 1024);
    }
    assert(unit_name(k) == size_units()[k as int]);
}

fn unit_str(k: usize) -> (s: &'static str)
    ensures
        s@ == unit_name(k as nat),
{
    if k == 0 {
        "B"
    } else if k == 1 {
        "KB"
    } else if k == 2 {
        "MB"
    } else if k == 3 {
        "GB"
    } else if k == 4 {
        "TB"
    } else if k == 5 {
        "PB"
    } else if k == 6 {
        "EB"
    } else if k == 7 {
        "ZB"
    } else {
        "YB"
    }
}

/// A byte count in the largest unit (B, KB, MB, ...) in which it is at least
/// one, with the remainder dropped, as in `"3 MB"`.
pub fn convert_bytes(bytes: usize) -> (r: String)
    ensures
        r@ == convert_bytes_spec(bytes as nat),
{
    let mut b = bytes;
    let mut i: usize = 0;
    proof {
        reveal_with_fuel(pow1024, 8);
        assert(pow1024(7) == 1180591620717411303424nat);
        lemma_scaled_bound(bytes as nat, 7);
    }
    while b >= 1024
        invariant
            scaled(bytes as nat).0 == scaled(b as nat).0,
            scaled(bytes as nat).1 == scaled(b as nat).1 + i,
            scaled(bytes as nat).1 < 7,
        decreases b,
    {
        b = b / 1024;
        i = i + 1;
    }
    let mut r = u64_to_string(b as u64);
    let sp = char_string(' ');
    r.append(sp.as_str());
    r.append(unit_str(i));
    r
}

/// The size that a size text stands for: its value when it reads as a
/// `usize`, else zero.
pub open spec fn size_value(s: Seq<char>) -> nat {
    match parse_bounded(s, usize::MAX as nat) {
        Some(n) => n,
        None => 0,
    }
}

/// The sum of the sizes that the texts stand for.
pub open spec fn total_size(sizes: Seq<Seq<char>>) -> nat
    decreases sizes.len(),
{
    if sizes.len() == 0 {
        0
    } else {
        total_size(sizes.drop_last()) + size_value(sizes.last())
    }
}

/// The total size of the media files, human-readable; `file_sizes` holds
/// each file's size as `get_file_size` writes it (a text that does not read
/// as a number counts as zero).
pub fn media_total_size(file_sizes: Vec<String>) -> (r: String)
    requires
        total_size(file_sizes.deep_view()) <= usize::MAX,
    ensures
        r@ == convert_bytes_spec(total_size(file_sizes.deep_view())),
{
    let ghost sizes = file_sizes.deep_view();
    let mut sum: usize = 0;
    let n = file_sizes.len();
    for i in 0..n
        invariant
            n == file_sizes@.len(),
            sizes == file_sizes.deep_view(),
            total_size(sizes) <= usize::MAX,
            sum == total_size(sizes.take(i as int)),
    {
        let v: usize = match parse_usize(file_sizes[i].as_str()) {
            Some(v) => v,
            None => 0,
        };
        proof {
            assert(sizes.take(i + 1).drop_last() =~= sizes.take(i as int));
            assert(sizes[i as int] == file_sizes@[i as int]@);
            lemma_total_size_prefix(sizes, i + 1);
        }
        sum = sum + v;
    }
    proof {
        assert(sizes.take(n as int) =~= sizes);
    }
    convert_bytes(sum)
}

proof fn lemma_total_size_prefix(s: Seq<Seq<char>>, i: int)
    requires
        0 <= i <= s.len(),
    ensures
        total_size(s.take(i)) <= total_size(s),
    decreases s.len(),
{
    if i < s.len() {
        assert(s.drop_last().take(i) =~= s.take(i));
        lemma_total_size_prefix(s.drop_last(), i);
    } else {
        assert(s.take(i) =~= s);
    }
}

/// The text that `get_file_size` gives for a size read from disk: its
/// decimal notation, or `"0"` when the size could not be read.
pub fn file_size_text(size: Option<u64>) -> (r: String)
    ensures
        r@ == decimal(match size {
            Some(n) => n as nat,
            None => 0,
        }),
{
    match size {
        Some(n) => u64_to_string(n),
        None => u64_to_string(0),
    }
}

} // verus!
