//! Pseudonymous tags: a deterministic one-way mapping from a submitter's
//! platform identity to a fixed-size hex digest. The same submitter always
//! yields the same tag, which lets operators correlate repeated abuse without
//! ever recovering the identity from stored data.

use vstd::prelude::*;
use crate::text::push_char;
use sha2::Digest;

verus! {

/// The SHA-256 digest of the UTF-8 bytes of a character sequence: a pure
/// function of its input, 32 bytes long. Its exact value is fixed by the
/// hash algorithm and is not spelled out here.
pub uninterp spec fn sha256_of(s: Seq<char>) -> Seq<u8>;

/// Relies on sha2::Sha256::digest: the digest depends on the input alone and
/// is 32 bytes long (`OutputSize = U32`).
#[verifier::external_body]
fn sha256_digest(s: &str) -> (r: Vec<u8>)
    ensures
        r@ == sha256_of(s@),
        r@.len() == 32,
{
    sha2::Sha256::digest(s.as_bytes()).to_vec()
}

/// The character for decimal digit `d`.
pub open spec fn digit_char(d: int) -> char
    recommends
        0 <= d < 10,
{
    ((48 + d) as u8) as char
}

/// The decimal representation of `n`, most significant digit first, with no
/// leading zeros (and `0` itself written as one digit).
pub open spec fn dec_str(n: nat) -> Seq<char>
    decreases n,
{
    if n < 10 {
        seq![digit_char(n as int)]
    } else {
        dec_str(n / 10).push(digit_char((n % 10) as int))
    }
}

fn push_dec(n: u64, out: &mut String)
    ensures
        final(out)@ == old(out)@ + dec_str(n as nat),
    decreases n,
{
    if n >= 10 {
        push_dec(n / 10, out);
    }
    let d: u8 = (n % 10) as u8;
    push_char(out, (48 + d) as char);
    proof {
        if n >= 10 {
            assert((old(out)@ + dec_str((n / 10) as nat)).push(digit_char((n % 10) as int))
                =~= old(out)@ + dec_str((n / 10) as nat).push(digit_char((n % 10) as int)));
        }
    }
}

/// The decimal representation of `n` as a string.
pub fn decimal_string(n: u64) -> (r: String)
    ensures
        r@ == dec_str(n as nat),
{
    let mut out = String::new();
    push_dec(n, &mut out);
    out
}

/// The character for hex digit `d`, lower case.
pub open spec fn hex_digit(d: int) -> char
    recommends
        0 <= d < 16,
{
    if d < 10 {
        ((48 + d) as u8) as char
    } else {
        ((87 + d) as u8) as char
    }
}

/// The lower-case hex encoding of a byte sequence, two digits per byte.
pub open spec fn hex_str(bytes: Seq<u8>) -> Seq<char>
    decreases bytes.len(),
{
    if bytes.len() == 0 {
        Seq::empty()
    } else {
        seq![hex_digit(bytes[0] as int / 16), hex_digit(bytes[0] as int % 16)]
            + hex_str(bytes.drop_first())
    }
}

/// Hex encoding doubles the length.
pub proof fn lemma_hex_str_len(bytes: Seq<u8>)
    ensures
        hex_str(bytes).len() == 2 * bytes.len(),
    decreases bytes.len(),
{
    if bytes.len() > 0 {
        lemma_hex_str_len(bytes.drop_first());
    }
}

/// The lower-case hex encoding of a byte vector.
pub fn hex_string(bytes: &Vec<u8>) -> (r: String)
    ensures
        r@ == hex_str(bytes@),
{
    let mut out = String::new();
    let len = bytes.len();
    assert(bytes@.skip(0) =~= bytes@);
    for i in 0..len
        invariant
            len == bytes@.len(),
            out@ + hex_str(bytes@.skip(i as int)) == hex_str(bytes@),
    {
        let b = bytes[i];
        let hi: u8 = b / 16;
        let lo: u8 = b % 16;
        let hc = if hi < 10 { (48 + hi) as char } else { (87 + hi) as char };
        let lc = if lo < 10 { (48 + lo) as char } else { (87 + lo) as char };
        assert(hc == hex_digit(b as int / 16));
        assert(lc == hex_digit(b as int % 16));
        push_char(&mut out, hc);
        push_char(&mut out, lc);
        proof {
            assert(bytes@.skip(i as int)[0] == b);
            assert(bytes@.skip(i as int).drop_first() =~= bytes@.skip(i + 1));
            assert(hex_str(bytes@.skip(i as int)) == seq![hc, lc] + hex_str(bytes@.skip(i + 1)));
            assert(out@ + hex_str(bytes@.skip(i + 1)) =~= hex_str(bytes@));
        }
    }
    assert(bytes@.skip(len as int) =~= Seq::<u8>::empty());
    assert(out@ =~= hex_str(bytes@));
    out
}

/// The pseudonymous tag of a submitter: the lower-case hex form of the
/// SHA-256 digest of the submitter id's decimal representation.
pub open spec fn tag_of(id: u64) -> Seq<char> {
    hex_str(sha256_of(dec_str(id as nat)))
}

/// Computes the pseudonymous tag of a submitter. Deterministic: equal ids
/// give equal tags. The tag is 64 hex characters and cannot be reversed to
/// the id except by exhausting the id space.
pub fn anonymous_tag(id: u64) -> (r: String)
    ensures
        r@ == tag_of(id),
        r@.len() == 64,
{
    let dec = decimal_string(id);
    let digest = sha256_digest(dec.as_str());
    proof {
        lemma_hex_str_len(digest@);
    }
    hex_string(&digest)
}

} // verus!
