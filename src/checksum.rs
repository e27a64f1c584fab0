//! Checksum specifications (`md5:HEX`, `sha1:HEX`, `sha256:HEX`) and the
//! comparison of a computed digest against the expected hex text.

use vstd::prelude::*;
use vstd::string::*;
use crate::text::chars_of;
use crate::types::ChecksumType;

verus! {

/// The value of a hexadecimal digit, either case; -1 for any other character.
pub open spec fn hex_value(c: char) -> int {
    if '0' <= c && c <= '9' {
        c as int - '0' as int
    } else if 'a' <= c && c <= 'f' {
        c as int - 'a' as int + 10
    } else if 'A' <= c && c <= 'F' {
        c as int - 'A' as int + 10
    } else {
        -1
    }
}

pub open spec fn all_hex(s: Seq<char>) -> bool {
    forall|i: int| 0 <= i < s.len() ==> hex_value(#[trigger] s[i]) >= 0
}

/// Characters `2i` and `2i + 1` of `text` are hex digits that spell `byte`.
pub open spec fn spells_byte(text: Seq<char>, i: int, byte: u8) -> bool {
    &&& hex_value(text[2 * i]) >= 0
    &&& hex_value(text[2 * i + 1]) >= 0
    &&& hex_value(text[2 * i]) * 16 + hex_value(text[2 * i + 1]) == byte
}

/// `text` spells `digest` in hexadecimal, two digits per byte, high digit first.
pub open spec fn spells_digest(text: Seq<char>, digest: Seq<u8>) -> bool {
    &&& text.len() == 2 * digest.len()
    &&& forall|i: int| 0 <= i < digest.len() ==> spells_byte(text, i, #[trigger] digest[i])
}

/// Length in bytes of each algorithm's digest.
pub open spec fn digest_len_of(c: ChecksumType) -> nat {
    match c {
        ChecksumType::Md5(_) => 16,
        ChecksumType::Sha1(_) => 20,
        ChecksumType::Sha256(_) => 32,
    }
}

pub open spec fn expected_of(c: ChecksumType) -> Seq<char> {
    match c {
        ChecksumType::Md5(h) => h@,
        ChecksumType::Sha1(h) => h@,
        ChecksumType::Sha256(h) => h@,
    }
}

/// `s` is `prefix` followed by `2 * bytes` hex digits.
pub open spec fn has_form(s: Seq<char>, prefix: Seq<char>, bytes: nat) -> bool {
    &&& s.len() == prefix.len() + 2 * bytes
    &&& s.subrange(0, prefix.len() as int) == prefix
    &&& all_hex(s.subrange(prefix.len() as int, s.len() as int))
}

pub open spec fn md5_prefix() -> Seq<char> {
    seq!['m', 'd', '5', ':']
}

pub open spec fn sha1_prefix() -> Seq<char> {
    seq!['s', 'h', 'a', '1', ':']
}

pub open spec fn sha256_prefix() -> Seq<char> {
    seq!['s', 'h', 'a', '2', '5', '6', ':']
}

fn hex_digit(c: char) -> (r: Option<u8>)
    ensures
        hex_value(c) >= 0 <==> r is Some,
        r is Some ==> r->0 == hex_value(c),
{
    if '0' <= c && c <= '9' {
        Some((c as u32 - '0' as u32) as u8)
    } else if 'a' <= c && c <= 'f' {
        Some((c as u32 - 'a' as u32 + 10) as u8)
    } else if 'A' <= c && c <= 'F' {
        Some((c as u32 - 'A' as u32 + 10) as u8)
    } else {
        None
    }
}

fn starts_with_chars(s: &Vec<char>, prefix: &Vec<char>) -> (r: bool)
    ensures
        r == (s@.len() >= prefix@.len() && s@.subrange(0, prefix@.len() as int) == prefix@),
{
    if s.len() < prefix.len() {
        return false;
    }
    let mut i: usize = 0;
    while i < prefix.len()
        invariant
            s@.len() >= prefix@.len(),
            0 <= i <= prefix@.len(),
            forall|k: int| 0 <= k < i ==> s@[k] == prefix@[k],
        decreases prefix@.len() - i,
    {
        if s[i] != prefix[i] {
            proof {
                assert(s@.subrange(0, prefix@.len() as int)[i as int] != prefix@[i as int]);
            }
            return false;
        }
        i = i + 1;
    }
    proof {
        assert(s@.subrange(0, prefix@.len() as int) =~= prefix@);
    }
    true
}

fn all_hex_from(s: &Vec<char>, from: usize) -> (r: bool)
    requires
        from <= s@.len(),
    ensures
        r == all_hex(s@.subrange(from as int, s@.len() as int)),
{
    let mut i: usize = from;
    while i < s.len()
        invariant
            from <= i <= s@.len(),
            forall|k: int| from <= k < i ==> hex_value(#[trigger] s@[k]) >= 0,
        decreases s@.len() - i,
    {
        if hex_digit(s[i]).is_none() {
            proof {
                assert(s@.subrange(from as int, s@.len() as int)[i - from] == s@[i as int]);
            }
            return false;
        }
        i = i + 1;
    }
    proof {
        let t = s@.subrange(from as int, s@.len() as int);
        assert forall|k: int| 0 <= k < t.len() implies hex_value(#[trigger] t[k]) >= 0 by {
            assert(t[k] == s@[from + k]);
        }
    }
    true
}

fn matches_form(s: &Vec<char>, prefix: &Vec<char>, bytes: usize) -> (r: bool)
    requires
        bytes <= 64,
        prefix@.len() <= 16,
    ensures
        r == has_form(s@, prefix@, bytes as nat),
{
    if s.len() != prefix.len() + 2 * bytes {
        return false;
    }
    starts_with_chars(s, prefix) && all_hex_from(s, prefix.len())
}

impl ChecksumType {
    /// Reads `md5:HEX`, `sha1:HEX` or `sha256:HEX`, where HEX spells a digest
    /// of the algorithm's length in either case.
    pub fn parse(s: &str) -> (r: Option<ChecksumType>)
        ensures
            r is Some <==> (has_form(s@, md5_prefix(), 16) || has_form(s@, sha1_prefix(), 20)
                || has_form(s@, sha256_prefix(), 32)),
            r matches Some(ChecksumType::Md5(h)) ==> has_form(s@, md5_prefix(), 16) && h@ == s@.subrange(4, s@.len() as int),
            r matches Some(ChecksumType::Sha1(h)) ==> has_form(s@, sha1_prefix(), 20) && h@ == s@.subrange(5, s@.len() as int),
            r matches Some(ChecksumType::Sha256(h)) ==> has_form(s@, sha256_prefix(), 32) && h@ == s@.subrange(7, s@.len() as int),
    {
        let cs = chars_of(s);
        let n = cs.len();
        let md5 = vec!['m', 'd', '5', ':'];
        let sha1 = vec!['s', 'h', 'a', '1', ':'];
        let sha256 = vec!['s', 'h', 'a', '2', '5', '6', ':'];
        proof {
            assert(md5@ == md5_prefix());
            assert(sha1@ == sha1_prefix());
            assert(sha256@ == sha256_prefix());
        }
        if matches_form(&cs, &md5, 16) {
            Some(ChecksumType::Md5(s.substring_char(4, n).to_owned()))
        } else if matches_form(&cs, &sha1, 20) {
            Some(ChecksumType::Sha1(s.substring_char(5, n).to_owned()))
        } else if matches_form(&cs, &sha256, 32) {
            Some(ChecksumType::Sha256(s.substring_char(7, n).to_owned()))
        } else {
            None
        }
    }

    /// The expected digest, as hex text.
    pub fn expected(&self) -> (r: &String)
        ensures
            r@ == expected_of(*self),
    {
        match self {
            ChecksumType::Md5(h) => h,
            ChecksumType::Sha1(h) => h,
            ChecksumType::Sha256(h) => h,
        }
    }

    /// Length in bytes of the algorithm's digest.
    pub fn digest_len(&self) -> (r: usize)
        ensures
            r == digest_len_of(*self),
    {
        match self {
            ChecksumType::Md5(_) => 16,
            ChecksumType::Sha1(_) => 20,
            ChecksumType::Sha256(_) => 32,
        }
    }

    /// Whether `digest` is the expected one. Every byte is compared, whatever
    /// the earlier ones gave, so the time taken does not depend on where a
    /// mismatch lies.
    pub fn matches(&self, digest: &Vec<u8>) -> (r: bool)
        ensures
            r == spells_digest(expected_of(*self), digest@),
    {
        let text = chars_of(self.expected().as_str());
        digest_matches(&text, digest)
    }
}

/// Compares hex text with a digest in time that depends on their lengths only.
pub fn digest_matches(text: &Vec<char>, digest: &Vec<u8>) -> (r: bool)
    ensures
        r == spells_digest(text@, digest@),
{
    let n = digest.len();
    let tl = text.len();
    if n > usize::MAX / 2 || tl != 2 * n {
        return false;
    }
    let mut same = true;
    let mut i: usize = 0;
    while i < n
        invariant
            n == digest@.len(),
            n <= usize::MAX / 2,
            text@.len() == 2 * n,
            0 <= i <= n,
            same == (forall|k: int| 0 <= k < i ==> spells_byte(text@, k, #[trigger] digest@[k])),
        decreases n - i,
    {
        let hi = hex_digit(text[2 * i]);
        let lo = hex_digit(text[2 * i + 1]);
        let byte_ok = match (hi, lo) {
            (Some(h), Some(l)) => h as u32 * 16 + l as u32 == digest[i] as u32,
            _ => false,
        };
        proof {
            assert(byte_ok == spells_byte(text@, i as int, digest@[i as int]));
        }
        same = same && byte_ok;
        i = i + 1;
    }
    same
}

/// The MD5 digest of some bytes, as md-5 computes it.
pub uninterp spec fn md5_of(data: Seq<u8>) -> Seq<u8>;

/// The SHA-1 digest of some bytes, as sha1 computes it.
pub uninterp spec fn sha1_of(data: Seq<u8>) -> Seq<u8>;

/// The SHA-256 digest of some bytes, as sha2 computes it.
pub uninterp spec fn sha256_of(data: Seq<u8>) -> Seq<u8>;

/// Relies on md5::Md5 (crate md-5) through `Digest::digest`: the digest
/// depends on the bytes alone and is 16 bytes long (its `OutputSize` is U16).
#[verifier::external_body]
fn md5_digest(data: &Vec<u8>) -> (r: Vec<u8>)
    ensures
        r@ == md5_of(data@),
        r@.len() == 16,
{
    <md5::Md5 as md5::Digest>::digest(data.as_slice()).to_vec()
}

/// Relies on sha1::Sha1 through `Digest::digest`: the digest depends on the
/// bytes alone and is 20 bytes long (its `OutputSize` is U20).
#[verifier::external_body]
fn sha1_digest(data: &Vec<u8>) -> (r: Vec<u8>)
    ensures
        r@ == sha1_of(data@),
        r@.len() == 20,
{
    <sha1::Sha1 as sha1::Digest>::digest(data.as_slice()).to_vec()
}

/// Relies on sha2::Sha256 through `Digest::digest`: the digest depends on
/// the bytes alone and is 32 bytes long (its `OutputSize` is U32).
#[verifier::external_body]
fn sha256_digest(data: &Vec<u8>) -> (r: Vec<u8>)
    ensures
        r@ == sha256_of(data@),
        r@.len() == 32,
{
    <sha2::Sha256 as sha2::Digest>::digest(data.as_slice()).to_vec()
}

/// The digest of `data` under the checksum's algorithm.
pub open spec fn digest_for(c: ChecksumType, data: Seq<u8>) -> Seq<u8> {
    match c {
        ChecksumType::Md5(_) => md5_of(data),
        ChecksumType::Sha1(_) => sha1_of(data),
        ChecksumType::Sha256(_) => sha256_of(data),
    }
}

impl ChecksumType {
    /// Digests `data` with this checksum's algorithm.
    pub fn digest(&self, data: &Vec<u8>) -> (r: Vec<u8>)
        ensures
            r@ == digest_for(*self, data@),
            r@.len() == digest_len_of(*self),
    {
        match self {
            ChecksumType::Md5(_) => md5_digest(data),
            ChecksumType::Sha1(_) => sha1_digest(data),
            ChecksumType::Sha256(_) => sha256_digest(data),
        }
    }

    /// Whether `data` has the expected digest.
    pub fn verify(&self, data: &Vec<u8>) -> (r: bool)
        ensures
            r == spells_digest(expected_of(*self), digest_for(*self, data@)),
    {
        let d = self.digest(data);
        self.matches(&d)
    }
}

} // verus!
