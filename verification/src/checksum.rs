//! Digest algorithms, lowercase-hex digests of byte strings, and tagged
//! checksum values that can verify themselves against a byte string.

use vstd::prelude::*;
use vstd::string::*;
use crate::search::lemma_first_index;
use crate::text::{find_char, is_char, owned, position, str_eq};

verus! {

/// A supported digest algorithm.
#[derive(Clone, Copy, Debug, PartialEq, Eq, Hash, Structural)]
pub enum HashFunc {
    Blake3,
    Sha1,
    Sha256,
}

/// Why a textual checksum or algorithm name was rejected.
#[derive(Clone, Copy, Debug, PartialEq, Eq, Structural)]
pub enum ChecksumError {
    /// The algorithm name is none of `blake3`, `sha1`, `sha256`.
    UnknownFunction,
    /// The text holds no `=` between algorithm and digest.
    MissingSeparator,
}

/// The longest input, in bytes, whose SHA-1 or SHA-256 digest is defined: its
/// length in bits still fits in 64 bits.
pub const MAX_DIGEST_INPUT: u64 = 0x1FFF_FFFF_FFFF_FFFF;

/// The 32-byte BLAKE3 hash of a byte string.
pub uninterp spec fn blake3_hash(data: Seq<u8>) -> Seq<u8>;

/// The 20-byte SHA-1 digest of a byte string.
pub uninterp spec fn sha1_hash(data: Seq<u8>) -> Seq<u8>;

/// The 32-byte SHA-256 digest of a byte string.
pub uninterp spec fn sha256_hash(data: Seq<u8>) -> Seq<u8>;

/// The lowercase hexadecimal digit for a value below 16.
pub open spec fn hex_digit(d: nat) -> char {
    if d < 10 {
        crate::text::digit_char(d)
    } else if d == 10 {
        'a'
    } else if d == 11 {
        'b'
    } else if d == 12 {
        'c'
    } else if d == 13 {
        'd'
    } else if d == 14 {
        'e'
    } else {
        'f'
    }
}

/// Lowercase hexadecimal encoding: two digits per byte, high nibble first.
pub open spec fn hex_lower(bytes: Seq<u8>) -> Seq<char>
    decreases bytes.len(),
{
    if bytes.len() == 0 {
        Seq::empty()
    } else {
        hex_lower(bytes.drop_last()).push(hex_digit(bytes.last() as nat / 16)).push(
            hex_digit(bytes.last() as nat % 16),
        )
    }
}

/// The raw digest of `data` under `function`.
pub open spec fn raw_digest(function: HashFunc, data: Seq<u8>) -> Seq<u8> {
    match function {
        HashFunc::Blake3 => blake3_hash(data),
        HashFunc::Sha1 => sha1_hash(data),
        HashFunc::Sha256 => sha256_hash(data),
    }
}

/// The lowercase hex digest of `data` under `function`.
pub open spec fn digest_hex(function: HashFunc, data: Seq<u8>) -> Seq<char> {
    hex_lower(raw_digest(function, data))
}

/// Calls `blake3::hash` and copies the output bytes out of the returned
/// `Hash`, which holds 32 of them. Beyond that the contract only names the
/// result: it is a function of the input bytes alone.
#[verifier::external_body]
fn blake3_bytes(data: &[u8]) -> (out: Vec<u8>)
    ensures
        out@ == blake3_hash(data@),
        out@.len() == 32,
{
    blake3::hash(data).as_bytes().to_vec()
}

/// Calls `ring::digest::digest` with `SHA1_FOR_LEGACY_USE_ONLY` and copies the
/// digest bytes out. That function panics when the input is too long for its
/// bit length to fit in 64 bits, so such input is excluded.
#[verifier::external_body]
fn sha1_bytes(data: &[u8]) -> (out: Vec<u8>)
    requires
        data@.len() <= MAX_DIGEST_INPUT,
    ensures
        out@ == sha1_hash(data@),
{
    ring::digest::digest(&ring::digest::SHA1_FOR_LEGACY_USE_ONLY, data).as_ref().to_vec()
}

/// Calls `ring::digest::digest` with `SHA256` and copies the digest bytes out.
/// That function panics when the input is too long for its bit length to fit
/// in 64 bits, so such input is excluded.
#[verifier::external_body]
fn sha256_bytes(data: &[u8]) -> (out: Vec<u8>)
    requires
        data@.len() <= MAX_DIGEST_INPUT,
    ensures
        out@ == sha256_hash(data@),
{
    ring::digest::digest(&ring::digest::SHA256, data).as_ref().to_vec()
}

/// Calls `const_hex::ToHexExt::encode_hex`, which writes each byte as two
/// lowercase hexadecimal digits, high nibble first.
#[verifier::external_body]
fn encode_hex(bytes: &[u8]) -> (out: String)
    ensures
        out@ == hex_lower(bytes@),
{
    const_hex::ToHexExt::encode_hex(&bytes)
}

/// A hex encoding is twice as long as what it encodes.
pub proof fn lemma_hex_len(bytes: Seq<u8>)
    ensures
        hex_lower(bytes).len() == 2 * bytes.len(),
    decreases bytes.len(),
{
    if bytes.len() > 0 {
        lemma_hex_len(bytes.drop_last());
    }
}

/// The lowercase hex BLAKE3 digest of `data`, which has 64 digits.
pub fn blake3(data: &[u8]) -> (hex: String)
    ensures
        hex@ == digest_hex(HashFunc::Blake3, data@),
        hex@.len() == 64,
{
    let raw = blake3_bytes(data);
    proof {
        lemma_hex_len(raw@);
    }
    encode_hex(raw.as_slice())
}

/// The lowercase hex SHA-1 digest of `data`.
pub fn sha1(data: &[u8]) -> (hex: String)
    requires
        data@.len() <= MAX_DIGEST_INPUT,
    ensures
        hex@ == digest_hex(HashFunc::Sha1, data@),
{
    let raw = sha1_bytes(data);
    encode_hex(raw.as_slice())
}

/// The lowercase hex SHA-256 digest of `data`.
pub fn sha256(data: &[u8]) -> (hex: String)
    requires
        data@.len() <= MAX_DIGEST_INPUT,
    ensures
        hex@ == digest_hex(HashFunc::Sha256, data@),
{
    let raw = sha256_bytes(data);
    encode_hex(raw.as_slice())
}

/// Whether `data` is short enough for every supported digest.
pub fn digestible(data: &[u8]) -> (ok: bool)
    ensures
        ok == (data@.len() <= MAX_DIGEST_INPUT),
{
    data.len() as u64 <= MAX_DIGEST_INPUT
}

/// The name under which an algorithm is written.
pub open spec fn function_name(function: HashFunc) -> Seq<char> {
    match function {
        HashFunc::Blake3 => "blake3"@,
        HashFunc::Sha1 => "sha1"@,
        HashFunc::Sha256 => "sha256"@,
    }
}

/// The algorithm written as `name`, if any.
pub open spec fn function_named(name: Seq<char>) -> Option<HashFunc> {
    if name == "blake3"@ {
        Some(HashFunc::Blake3)
    } else if name == "sha1"@ {
        Some(HashFunc::Sha1)
    } else if name == "sha256"@ {
        Some(HashFunc::Sha256)
    } else {
        None
    }
}

impl HashFunc {
    /// The lowercase hex digest of `data` under this algorithm.
    pub fn calc(&self, data: &[u8]) -> (hex: String)
        requires
            data@.len() <= MAX_DIGEST_INPUT,
        ensures
            hex@ == digest_hex(*self, data@),
    {
        match self {
            HashFunc::Blake3 => blake3(data),
            HashFunc::Sha1 => sha1(data),
            HashFunc::Sha256 => sha256(data),
        }
    }

    /// The algorithm's name: `blake3`, `sha1` or `sha256`.
    pub fn to_string(&self) -> (name: String)
        ensures
            name@ == function_name(*self),
    {
        match self {
            HashFunc::Blake3 => "blake3".to_owned(),
            HashFunc::Sha1 => "sha1".to_owned(),
            HashFunc::Sha256 => "sha256".to_owned(),
        }
    }

    /// Reads an algorithm name. Only the three exact names are accepted.
    pub fn from_str(s: &str) -> (parsed: Result<HashFunc, ChecksumError>)
        ensures
            match function_named(s@) {
                Some(function) => parsed == Ok::<HashFunc, ChecksumError>(function),
                None => parsed == Err::<HashFunc, ChecksumError>(ChecksumError::UnknownFunction),
            },
    {
        if str_eq(s, "blake3") {
            Ok(HashFunc::Blake3)
        } else if str_eq(s, "sha1") {
            Ok(HashFunc::Sha1)
        } else if str_eq(s, "sha256") {
            Ok(HashFunc::Sha256)
        } else {
            Err(ChecksumError::UnknownFunction)
        }
    }
}

/// Reading an algorithm's own name gives the algorithm back.
pub proof fn lemma_function_name_round_trip(function: HashFunc)
    ensures
        function_named(function_name(function)) == Some(function),
{
    reveal_strlit("blake3");
    reveal_strlit("sha1");
    reveal_strlit("sha256");
    assert("blake3"@.len() == 6);
    assert("sha1"@.len() == 4);
    assert("sha256"@.len() == 6);
    assert("sha256"@[0] == 's');
    assert("blake3"@[0] == 'b');
}

/// A digest tagged with the algorithm that produced it.
#[derive(Debug, PartialEq, Eq, Hash)]
pub struct Checksum {
    pub function: HashFunc,
    pub hex_hash: String,
}

/// What a [`Checksum`] stands for.
pub struct ChecksumView {
    pub function: HashFunc,
    pub hex_hash: Seq<char>,
}

impl View for Checksum {
    type V = ChecksumView;

    open spec fn view(&self) -> ChecksumView {
        ChecksumView { function: self.function, hex_hash: self.hex_hash@ }
    }
}

impl Clone for Checksum {
    fn clone(&self) -> (copy: Self)
        ensures
            copy@ == self@,
    {
        Checksum { function: self.function, hex_hash: self.hex_hash.clone() }
    }
}

/// The text of a checksum: algorithm name, `=`, digest.
pub open spec fn checksum_text(c: ChecksumView) -> Seq<char> {
    function_name(c.function) + seq!['='] + c.hex_hash
}

/// What a text reads as: the part before the first `=` names the algorithm,
/// everything after it is the digest.
pub open spec fn checksum_parsed(s: Seq<char>) -> Result<ChecksumView, ChecksumError> {
    let at = position(s, '=');
    if at >= s.len() {
        Err(ChecksumError::MissingSeparator)
    } else {
        match function_named(s.subrange(0, at)) {
            Some(function) => Ok(
                ChecksumView { function, hex_hash: s.subrange(at + 1, s.len() as int) },
            ),
            None => Err(ChecksumError::UnknownFunction),
        }
    }
}

/// Whether a checksum is the digest of `data` under its own algorithm.
pub open spec fn checksum_matches(c: ChecksumView, data: Seq<u8>) -> bool {
    c.hex_hash == digest_hex(c.function, data)
}

impl Checksum {
    /// A BLAKE3 checksum with the given hex digest.
    pub fn blake3(hex_hash: String) -> (c: Self)
        ensures
            c@ == (ChecksumView { function: HashFunc::Blake3, hex_hash: hex_hash@ }),
    {
        Checksum { function: HashFunc::Blake3, hex_hash }
    }

    /// A SHA-1 checksum with the given hex digest.
    pub fn sha1(hex_hash: String) -> (c: Self)
        ensures
            c@ == (ChecksumView { function: HashFunc::Sha1, hex_hash: hex_hash@ }),
    {
        Checksum { function: HashFunc::Sha1, hex_hash }
    }

    /// A SHA-256 checksum with the given hex digest.
    pub fn sha256(hex_hash: String) -> (c: Self)
        ensures
            c@ == (ChecksumView { function: HashFunc::Sha256, hex_hash: hex_hash@ }),
    {
        Checksum { function: HashFunc::Sha256, hex_hash }
    }

    /// Recomputes the digest of `data` and compares it in full.
    pub fn check(&self, data: &[u8]) -> (ok: bool)
        requires
            data@.len() <= MAX_DIGEST_INPUT,
        ensures
            ok == checksum_matches(self@, data@),
    {
        let hash = self.function.calc(data);
        self.hex_hash == hash
    }

    /// Writes the checksum as `<algorithm>=<digest>`.
    pub fn to_string(&self) -> (text: String)
        ensures
            text@ == checksum_text(self@),
    {
        let mut text = self.function.to_string();
        text.push('=');
        text.append(self.hex_hash.as_str());
        text
    }

    /// Reads a checksum written as `<algorithm>=<digest>`. The digest is
    /// taken as it stands.
    pub fn from_str(s: &str) -> (parsed: Result<Checksum, ChecksumError>)
        ensures
            match checksum_parsed(s@) {
                Ok(view) => parsed is Ok && parsed->Ok_0@ == view,
                Err(e) => parsed == Err::<Checksum, ChecksumError>(e),
            },
    {
        let n = s.unicode_len();
        let at = find_char(s, '=');
        if at >= n {
            return Err(ChecksumError::MissingSeparator);
        }
        let name = s.substring_char(0, at);
        match HashFunc::from_str(name) {
            Ok(function) => {
                let hex = s.substring_char(at + 1, n);
                Ok(Checksum { function, hex_hash: owned(hex) })
            },
            Err(e) => Err(e),
        }
    }
}

/// Reading the text of a checksum gives the checksum back, whatever its
/// digest holds.
pub proof fn lemma_checksum_round_trip(c: ChecksumView)
    ensures
        checksum_parsed(checksum_text(c)) == Ok::<ChecksumView, ChecksumError>(c),
{
    reveal_strlit("blake3");
    reveal_strlit("sha1");
    reveal_strlit("sha256");
    let name = function_name(c.function);
    let text = checksum_text(c);
    let at = name.len() as int;
    assert(forall|j: int| 0 <= j < at ==> text[j] == name[j]);
    assert(text[at] == '=');
    lemma_first_index(text, is_char('='), at);
    assert(text.subrange(0, at) =~= name);
    assert(text.subrange(at + 1, text.len() as int) =~= c.hex_hash);
    lemma_function_name_round_trip(c.function);
}

} // verus!
