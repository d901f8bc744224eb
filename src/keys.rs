//! Names of snapshots: the hex SHA-512 of a watched path, or a fixed name.

use vstd::prelude::*;
use sha2::{Digest, Sha512};
use vstd::string::StringSliceAdditionalSpecFns;

verus! {

/// The SHA-512 digest of a byte string.
pub uninterp spec fn sha512_of(data: Seq<u8>) -> Seq<u8>;

/// Relies on `sha2::Sha512::digest`: the 64-byte digest of the input.
#[verifier::external_body]
fn sha512(data: &[u8]) -> (r: Vec<u8>)
    ensures
        r@ == sha512_of(data@),
        r@.len() == 64,
{
    Sha512::digest(data).to_vec()
}

/// A lowercase hex digit.
pub open spec fn hex_digit(n: u8) -> char {
    if n < 10 {
        (('0' as u8) + n) as char
    } else {
        (('a' as u8) + n - 10u8) as char
    }
}

/// Two lowercase hex digits per byte, high half first.
pub open spec fn hex_of(b: Seq<u8>) -> Seq<char>
    decreases b.len(),
{
    if b.len() == 0 {
        seq![]
    } else {
        hex_of(b.drop_last()) + seq![hex_digit(b.last() / 16), hex_digit(b.last() % 16)]
    }
}

/// Relies on `hex::encode`: each byte becomes two digits of
/// `0123456789abcdef`, the high half first.
#[verifier::external_body]
fn to_hex(data: &Vec<u8>) -> (r: String)
    ensures
        r@ == hex_of(data@),
{
    hex::encode(data)
}

/// The snapshot name of a watched path.
pub open spec fn path_key(path: &str) -> Seq<char> {
    hex_of(sha512_of(path.spec_bytes()))
}

/// The snapshot name of a watched path: the hex SHA-512 of its bytes.
pub fn snapshot_key(path: &str) -> (r: String)
    ensures
        r@ == path_key(path),
        r@.len() == 128,
        r@ != "processes"@,
        r@ != "packages"@,
{
    let digest = sha512(path.as_bytes());
    proof {
        lemma_hex_len(digest@);
        reveal_strlit("processes");
        reveal_strlit("packages");
    }
    to_hex(&digest)
}

/// The snapshot name of the process listing.
pub fn processes_key() -> (r: String)
    ensures
        r@ == "processes"@,
{
    "processes".to_owned()
}

/// The snapshot name of the package listing.
pub fn packages_key() -> (r: String)
    ensures
        r@ == "packages"@,
{
    "packages".to_owned()
}

pub proof fn lemma_hex_len(b: Seq<u8>)
    ensures
        hex_of(b).len() == 2 * b.len(),
    decreases b.len(),
{
    if b.len() > 0 {
        lemma_hex_len(b.drop_last());
    }
}

proof fn lemma_hex_digit_injective(x: u8, y: u8)
    requires
        x < 16,
        y < 16,
        hex_digit(x) == hex_digit(y),
    ensures
        x == y,
{
}

/// Different digests give different snapshot names: hex encoding loses
/// nothing.
pub proof fn lemma_hex_injective(a: Seq<u8>, b: Seq<u8>)
    requires
        hex_of(a) == hex_of(b),
    ensures
        a == b,
    decreases a.len(),
{
    lemma_hex_len(a);
    lemma_hex_len(b);
    if a.len() > 0 {
        let ha = hex_of(a);
        let hb = hex_of(b);
        let n = ha.len();
        lemma_hex_len(a.drop_last());
        lemma_hex_len(b.drop_last());
        assert(ha[n - 2] == hex_digit(a.last() / 16));
        assert(hb[n - 2] == hex_digit(b.last() / 16));
        assert(ha[n - 1] == hex_digit(a.last() % 16));
        assert(hb[n - 1] == hex_digit(b.last() % 16));
        lemma_hex_digit_injective(a.last() / 16, b.last() / 16);
        lemma_hex_digit_injective(a.last() % 16, b.last() % 16);
        assert(a.last() == b.last()) by (nonlinear_arith)
            requires
                a.last() / 16 == b.last() / 16,
                a.last() % 16 == b.last() % 16,
        ;
        assert(hex_of(a.drop_last()) =~= ha.subrange(0, n - 2));
        assert(hex_of(b.drop_last()) =~= hb.subrange(0, n - 2));
        lemma_hex_injective(a.drop_last(), b.drop_last());
        assert(a =~= a.drop_last().push(a.last()));
        assert(b =~= b.drop_last().push(b.last()));
    }
}

/// Paths whose digests differ have different snapshot names.
pub proof fn lemma_path_keys_distinct(p: &str, q: &str)
    requires
        sha512_of(p.spec_bytes()) != sha512_of(q.spec_bytes()),
    ensures
        path_key(p) != path_key(q),
{
    if path_key(p) == path_key(q) {
        lemma_hex_injective(sha512_of(p.spec_bytes()), sha512_of(q.spec_bytes()));
    }
}

} // verus!
