//! Identifiers of artists, albums, songs and files: the MD5 digest of a
//! name or path, written in lower-case hexadecimal.

use vstd::prelude::*;
use md5::Digest;
use crate::text::string_of;

verus! {

/// The MD5 digest (RFC 1321) of `data`, as the `md-5` crate computes it.
pub uninterp spec fn md5_digest(data: Seq<u8>) -> Seq<u8>;

/// Calls `md5::Md5` (`new`, `update`, `finalize`) on `data`. Trusted: the
/// result is the digest that `md5_digest` names, and it is 16 bytes long
/// (the hasher's output size is `U16`).
#[verifier::external_body]
fn md5_of(data: &[u8]) -> (r: Vec<u8>)
    ensures
        r@ == md5_digest(data@),
        r@.len() == 16,
{
    let mut hasher = md5::Md5::new();
    hasher.update(data);
    hasher.finalize().to_vec()
}

/// The lower-case hexadecimal digit for `n < 16`.
pub open spec fn hex_digit(n: nat) -> char {
    if n < 10 {
        (n + 48) as char
    } else {
        (n + 87) as char
    }
}

/// `bytes` in lower-case hexadecimal, two digits a byte, as `{:x}` writes a
/// digest.
pub open spec fn hex_lower(bytes: Seq<u8>) -> Seq<char>
    decreases bytes.len(),
{
    if bytes.len() == 0 {
        Seq::empty()
    } else {
        hex_lower(bytes.drop_last()) + seq![
            hex_digit((bytes.last() / 16) as nat),
            hex_digit((bytes.last() % 16) as nat),
        ]
    }
}

fn hex_digit_exec(n: u8) -> (c: char)
    requires
        n < 16,
    ensures
        c == hex_digit(n as nat),
{
    if n < 10 {
        (n + 48) as char
    } else {
        (n + 87) as char
    }
}

/// `bytes` in lower-case hexadecimal.
pub fn to_hex_lower(bytes: &Vec<u8>) -> (r: String)
    ensures
        r@ == hex_lower(bytes@),
        r@.len() == 2 * bytes@.len(),
{
    let mut out: Vec<char> = Vec::new();
    let n = bytes.len();
    for i in 0..n
        invariant
            n == bytes@.len(),
            out@ == hex_lower(bytes@.take(i as int)),
            out@.len() == 2 * i,
    {
        let b = bytes[i];
        out.push(hex_digit_exec(b / 16));
        out.push(hex_digit_exec(b % 16));
        proof {
            assert(bytes@.take(i + 1).drop_last() =~= bytes@.take(i as int));
            assert(out@ =~= hex_lower(bytes@.take(i as int)) + seq![
                hex_digit((b / 16) as nat),
                hex_digit((b % 16) as nat),
            ]);
        }
    }
    proof {
        assert(bytes@.take(n as int) =~= bytes@);
    }
    string_of(&out)
}

/// The identifier of a name or path: the MD5 digest of its UTF-8 bytes in
/// lower-case hexadecimal (32 characters).
pub fn get_md5(z: String) -> (r: String)
    ensures
        r@ == hex_lower(md5_digest(vstd::utf8::encode_utf8(z@))),
        r@.len() == 32,
{
    let digest = md5_of(z.as_str().as_bytes());
    to_hex_lower(&digest)
}

} // verus!
