//! Account identifiers: opaque 32-byte addresses whose first four bytes are a
//! big-endian CRC-32 checksum of the trailing 28 bytes.  Identifiers are
//! validated on construction from hex or from raw bytes; the ledger treats
//! validated identifiers as plain, byte-wise comparable values.

use vstd::prelude::*;

verus! {

/// CRC-32 of a byte sequence, as computed by the `crc32fast` crate.
pub uninterp spec fn crc32_of(data: Seq<u8>) -> u32;

/// The 32-byte account identifier derived from a principal (with the default,
/// all-zero subaccount), as computed by the `ic_ledger_types` crate.
pub uninterp spec fn account_id_of(principal: Seq<u8>) -> Seq<u8>;

/// The big-endian byte encoding of a 32-bit value.
pub open spec fn u32_be_bytes(x: u32) -> Seq<u8> {
    seq![(x >> 24) as u8, (x >> 16) as u8, (x >> 8) as u8, x as u8]
}

/// A 32-byte blob is well-formed when its first four bytes are the big-endian
/// CRC-32 of its last 28 bytes.
pub open spec fn checksum_ok(b: Seq<u8>) -> bool {
    &&& b.len() == 32
    &&& b.subrange(0, 4) == u32_be_bytes(crc32_of(b.subrange(4, 32)))
}

pub open spec fn is_hex_digit(c: char) -> bool {
    ('0' <= c && c <= '9') || ('a' <= c && c <= 'f') || ('A' <= c && c <= 'F')
}

pub open spec fn hex_digit_value(c: char) -> int {
    if '0' <= c && c <= '9' {
        c as int - '0' as int
    } else if 'a' <= c && c <= 'f' {
        c as int - 'a' as int + 10
    } else {
        c as int - 'A' as int + 10
    }
}

/// A string decodes as hex when it has an even number of characters, all of
/// them hex digits (either case).
pub open spec fn valid_hex(s: Seq<char>) -> bool {
    &&& s.len() % 2 == 0
    &&& forall|i: int| 0 <= i < s.len() ==> is_hex_digit(#[trigger] s[i])
}

/// The bytes denoted by a valid hex string, two digits per byte.
pub open spec fn spec_hex_decode(s: Seq<char>) -> Seq<u8> {
    Seq::new(s.len() / 2, |i: int| (hex_digit_value(s[2 * i]) * 16 + hex_digit_value(s[2 * i + 1])) as u8)
}

/// The lowercase hex digit for a value below 16.
pub open spec fn lower_hex_digit(v: u8) -> char {
    if v < 10 {
        (('0' as u8) + v) as char
    } else {
        (('a' as u8) + (v - 10)) as char
    }
}

/// The lowercase hex encoding of a byte sequence, two digits per byte.
pub open spec fn spec_hex_encode(b: Seq<u8>) -> Seq<char> {
    Seq::new(b.len() * 2, |i: int| if i % 2 == 0 {
        lower_hex_digit(b[i / 2] >> 4)
    } else {
        lower_hex_digit(b[i / 2] & 0xf)
    })
}

/// Hex encoding round-trips: the encoding of any byte sequence is a valid
/// hex string, and decoding it yields the bytes again.
pub proof fn lemma_hex_round_trip(b: Seq<u8>)
    ensures
        valid_hex(spec_hex_encode(b)),
        spec_hex_decode(spec_hex_encode(b)) == b,
{
    let e = spec_hex_encode(b);
    assert forall|v: u8| v < 16 implies is_hex_digit(#[trigger] lower_hex_digit(v))
        && hex_digit_value(lower_hex_digit(v)) == v by {
        if v < 10 {
            assert(('0' as u8 + v) as char as int == '0' as int + v);
        } else {
            assert(('a' as u8 + (v - 10)) as char as int == 'a' as int + v - 10);
        }
    }
    assert forall|i: int| 0 <= i < e.len() implies is_hex_digit(#[trigger] e[i]) by {
        let x = b[i / 2];
        assert(x >> 4 < 16 && x & 0xf < 16) by (bit_vector);
    }
    assert(valid_hex(e));
    assert forall|i: int| 0 <= i < b.len() implies spec_hex_decode(e)[i] == b[i] by {
        let x = b[i];
        assert(x >> 4 < 16 && x & 0xf < 16) by (bit_vector);
        assert(e[2 * i] == lower_hex_digit(x >> 4));
        assert(e[2 * i + 1] == lower_hex_digit(x & 0xf));
        assert(16 * (x >> 4) + (x & 0xf) == x) by (bit_vector);
    }
    assert(spec_hex_decode(e) =~= b);
}

/// Relies on `crc32fast::hash`: the CRC-32 of the given bytes, a function of
/// those bytes alone.
#[verifier::external_body]
fn crc32(data: &[u8]) -> (r: u32)
    ensures
        r == crc32_of(data@),
{
    crc32fast::hash(data)
}

/// Relies on `hex::encode`: lowercase hex, two digits per byte, in order.
#[verifier::external_body]
fn hex_encode(data: &[u8]) -> (r: String)
    ensures
        r@ == spec_hex_encode(data@),
{
    hex::encode(data)
}

/// Relies on `hex::decode`: succeeds exactly on strings with an even number
/// of hex digits (either case counts), yielding one byte per digit pair; the
/// error text is the message of `hex::FromHexError`.
#[verifier::external_body]
fn hex_decode(s: &str) -> (r: Result<Vec<u8>, String>)
    ensures
        match r {
            Ok(v) => valid_hex(s@) && v@ == spec_hex_decode(s@),
            Err(_) => !valid_hex(s@),
        },
{
    hex::decode(s).map_err(|e| e.to_string())
}

/// Relies on `ic_ledger_types::AccountIdentifier::new` (via
/// `candid::Principal::from_slice`): derives the 32-byte account identifier
/// of a principal with the default subaccount.  The result is a function of
/// the principal bytes alone, and its first four bytes are the big-endian
/// CRC-32 of its last 28 bytes.
#[verifier::external_body]
pub(crate) fn derive_account_bytes(principal: &Vec<u8>) -> (r: [u8; 32])
    requires
        principal@.len() <= 29,
    ensures
        r@ == account_id_of(principal@),
        checksum_ok(r@),
{
    let pid = candid::Principal::from_slice(principal.as_slice());
    let account = ic_ledger_types::AccountIdentifier::new(&pid, &ic_ledger_types::Subaccount([0u8; 32]));
    *account.as_bytes()
}

/// Relies on `format!`: renders the report for a hex string of the wrong
/// length.
#[verifier::external_body]
fn fmt_invalid_length(hex_str: &str) -> (r: String)
    ensures
        r@.len() > 0,
{
    format!(
        "{} has a length of {} but we expected a length of 64 or 56",
        hex_str,
        hex_str.len()
    )
}

/// Relies on `hex::encode` and `format!`: renders the checksum mismatch
/// report.
#[verifier::external_body]
fn fmt_checksum_error(err: &ChecksumError) -> (r: String)
    ensures
        r@.len() > 0,
{
    format!(
        "Checksum failed for {}, expected check bytes {} but found {}",
        hex::encode(&err.input[..]),
        hex::encode(err.expected_checksum),
        hex::encode(err.found_checksum),
    )
}

/// Relies on `format!`: renders the report for a byte blob of the wrong
/// length.
#[verifier::external_body]
fn fmt_invalid_byte_length(len: usize) -> (r: String)
    ensures
        r@.len() > 0,
{
    format!(
        "Received an invalid AccountIdentifier with length {} bytes instead of the expected 28 or 32.",
        len
    )
}

/// An account identifier: 32 bytes, checksum first.
#[derive(Debug, Clone, Hash, PartialEq, Eq, Copy)]
pub struct ShikuAccountIdentifier(pub [u8; 32]);

impl View for ShikuAccountIdentifier {
    type V = Seq<u8>;

    open spec fn view(&self) -> Seq<u8> {
        self.0@
    }
}

/// Byte-wise equality of two account identifiers.
pub fn account_eq(a: &ShikuAccountIdentifier, b: &ShikuAccountIdentifier) -> (r: bool)
    ensures
        r == (a@ == b@),
{
    let mut i: usize = 0;
    while i < 32
        invariant
            i <= 32,
            forall|k: int| 0 <= k < i ==> a@[k] == b@[k],
        decreases 32 - i,
    {
        if a.0[i] != b.0[i] {
            return false;
        }
        i += 1;
    }
    proof {
        assert(a@ =~= b@);
    }
    true
}

impl Default for ShikuAccountIdentifier {
    /// The account identifier of the anonymous principal (a single `0x04`
    /// byte) with the default subaccount.
    fn default() -> (r: Self)
        ensures
            r@ == account_id_of(seq![4u8]),
    {
        let mut principal: Vec<u8> = Vec::new();
        principal.push(4u8);
        proof {
            assert(principal@ =~= seq![4u8]);
        }
        ShikuAccountIdentifier(derive_account_bytes(&principal))
    }
}

impl ShikuAccountIdentifier {
    /// Parses an account identifier from its hex encoding, validating the
    /// embedded checksum.
    pub fn from_hex(hex_str: &str) -> (r: Result<ShikuAccountIdentifier, String>)
        ensures
            match r {
                Ok(a) => {
                    &&& valid_hex(hex_str@)
                    &&& checksum_ok(spec_hex_decode(hex_str@))
                    &&& a@ == spec_hex_decode(hex_str@)
                },
                Err(_) => !(valid_hex(hex_str@) && checksum_ok(spec_hex_decode(hex_str@))),
            },
    {
        let hex: Vec<u8> = match hex_decode(hex_str) {
            Ok(v) => v,
            Err(msg) => {
                return Err(msg);
            },
        };
        match Self::from_slice(hex.as_slice()) {
            Ok(a) => Ok(a),
            Err(AccountIdParseError::InvalidLength(_)) => Err(fmt_invalid_length(hex_str)),
            Err(AccountIdParseError::InvalidChecksum(err)) => Err(fmt_checksum_error(&err)),
        }
    }

    /// Converts a 32-byte blob (4-byte checksum followed by a 28-byte hash)
    /// into an account identifier, verifying the checksum.  Any other length
    /// is rejected.
    pub fn from_slice(v: &[u8]) -> (r: Result<ShikuAccountIdentifier, AccountIdParseError>)
        ensures
            match r {
                Ok(a) => checksum_ok(v@) && a@ == v@,
                Err(AccountIdParseError::InvalidChecksum(e)) => v@.len() == 32 && !checksum_ok(v@)
                    && e.spec_input() == v@,
                Err(AccountIdParseError::InvalidLength(b)) => v@.len() != 32 && b@ == v@,
            },
    {
        if v.len() == 32 {
            let mut bytes = [0u8; 32];
            let mut i: usize = 0;
            while i < 32
                invariant
                    i <= 32,
                    v@.len() == 32,
                    forall|k: int| 0 <= k < i ==> bytes@[k] == v@[k],
                decreases 32 - i,
            {
                bytes[i] = v[i];
                i += 1;
            }
            proof {
                assert(bytes@ =~= v@);
            }
            match check_sum(bytes) {
                Ok(a) => Ok(a),
                Err(e) => Err(AccountIdParseError::InvalidChecksum(e)),
            }
        } else {
            Err(AccountIdParseError::InvalidLength(slice_to_vec(v)))
        }
    }

    /// The canonical lowercase hex encoding of this identifier.
    pub fn to_hex(&self) -> (r: String)
        ensures
            r@ == spec_hex_encode(self@),
    {
        hex_encode(&self.0)
    }

    /// The binary address of this identifier: its CRC-32 check bytes followed
    /// by its trailing 28 bytes.
    pub fn to_address(&self) -> (r: [u8; 32])
        ensures
            r@.subrange(0, 4) == u32_be_bytes(crc32_of(self@.subrange(4, 32))),
            r@.subrange(4, 32) == self@.subrange(4, 32),
    {
        let checksum = self.generate_checksum();
        let mut result = [0u8; 32];
        let mut i: usize = 0;
        while i < 4
            invariant
                i <= 4,
                forall|k: int| 0 <= k < i ==> result@[k] == checksum@[k],
            decreases 4 - i,
        {
            result[i] = checksum[i];
            i += 1;
        }
        let mut j: usize = 4;
        while j < 32
            invariant
                4 <= j <= 32,
                forall|k: int| 0 <= k < 4 ==> result@[k] == checksum@[k],
                forall|k: int| 4 <= k < j ==> result@[k] == self@[k],
            decreases 32 - j,
        {
            result[j] = self.0[j];
            j += 1;
        }
        proof {
            assert(result@.subrange(0, 4) =~= checksum@);
            assert(result@.subrange(4, 32) =~= self@.subrange(4, 32));
        }
        result
    }

    /// Parses an account identifier from a binary address, verifying the
    /// checksum.
    pub fn from_address(blob: [u8; 32]) -> (r: Result<Self, ChecksumError>)
        ensures
            match r {
                Ok(a) => checksum_ok(blob@) && a@ == blob@,
                Err(e) => !checksum_ok(blob@) && e.spec_input() == blob@,
            },
    {
        check_sum(blob)
    }

    /// The big-endian CRC-32 check bytes of this identifier's trailing 28
    /// bytes.
    pub fn generate_checksum(&self) -> (r: [u8; 4])
        ensures
            r@ == u32_be_bytes(crc32_of(self@.subrange(4, 32))),
    {
        let hash = crc32(&self.0[4..32]);
        let r: [u8; 4] = [(hash >> 24) as u8, (hash >> 16) as u8, (hash >> 8) as u8, hash as u8];
        proof {
            assert(r@ =~= u32_be_bytes(crc32_of(self@.subrange(4, 32))));
        }
        r
    }
}

impl core::str::FromStr for ShikuAccountIdentifier {
    type Err = String;

    fn from_str(s: &str) -> Result<ShikuAccountIdentifier, String> {
        ShikuAccountIdentifier::from_hex(s)
    }
}

/// Copies a byte slice into an owned vector.
fn slice_to_vec(v: &[u8]) -> (r: Vec<u8>)
    ensures
        r@ == v@,
{
    let mut r: Vec<u8> = Vec::new();
    let mut i: usize = 0;
    while i < v.len()
        invariant
            i <= v@.len(),
            r@ =~= v@.subrange(0, i as int),
        decreases v@.len() - i,
    {
        r.push(v[i]);
        i += 1;
    }
    proof {
        assert(r@ =~= v@);
    }
    r
}

/// Validates the checksum embedded in a 32-byte blob, producing the account
/// identifier on success and a mismatch report on failure.
fn check_sum(hex: [u8; 32]) -> (r: Result<ShikuAccountIdentifier, ChecksumError>)
    ensures
        match r {
            Ok(a) => checksum_ok(hex@) && a@ == hex@,
            Err(e) => !checksum_ok(hex@) && e.spec_input() == hex@,
        },
{
    let account_id = ShikuAccountIdentifier(hex);
    let expected_checksum = account_id.generate_checksum();
    let matches = expected_checksum[0] == hex[0] && expected_checksum[1] == hex[1]
        && expected_checksum[2] == hex[2] && expected_checksum[3] == hex[3];
    proof {
        if matches {
            assert(hex@.subrange(0, 4) =~= expected_checksum@);
        } else {
            assert(hex@.subrange(0, 4) != expected_checksum@) by {
                if hex@.subrange(0, 4) == expected_checksum@ {
                    assert(hex@.subrange(0, 4)[0] == hex@[0]);
                    assert(hex@.subrange(0, 4)[1] == hex@[1]);
                    assert(hex@.subrange(0, 4)[2] == hex@[2]);
                    assert(hex@.subrange(0, 4)[3] == hex@[3]);
                }
            }
        }
    }
    if matches {
        Ok(account_id)
    } else {
        Err(ChecksumError {
            input: hex,
            expected_checksum,
            found_checksum: [hex[0], hex[1], hex[2], hex[3]],
        })
    }
}

/// A checksum mismatch: the check bytes found in the input differ from the
/// ones computed over its trailing 28 bytes.
#[derive(Debug, PartialEq, Eq)]
pub struct ChecksumError {
    input: [u8; 32],
    expected_checksum: [u8; 4],
    found_checksum: [u8; 4],
}

impl ChecksumError {
    /// The 32-byte input whose checksum failed to verify.
    pub closed spec fn spec_input(&self) -> Seq<u8> {
        self.input@
    }

    /// A human-readable account of the mismatch.
    pub fn to_text(&self) -> (r: String)
        ensures
            r@.len() > 0,
    {
        fmt_checksum_error(self)
    }
}

/// The ways a byte blob can fail to parse as an account identifier.
#[derive(Debug, PartialEq, Eq)]
pub enum AccountIdParseError {
    InvalidChecksum(ChecksumError),
    InvalidLength(Vec<u8>),
}

impl AccountIdParseError {
    /// A human-readable account of the failure.
    pub fn to_text(&self) -> (r: String)
        ensures
            r@.len() > 0,
    {
        match self {
            AccountIdParseError::InvalidChecksum(err) => err.to_text(),
            AccountIdParseError::InvalidLength(input) => fmt_invalid_byte_length(input.len()),
        }
    }
}

} // verus!
