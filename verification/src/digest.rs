//! Digests and their textual and self-describing forms: hexadecimal text,
//! multihash framing, and the fixed-length object identifier.

use vstd::prelude::*;
use vstd::utf8::encode_utf8;
use crate::error::{Error, HexError, MultihashError};

verus! {

/// Number of bytes in an object identifier.
pub const OBJECT_ID_LEN: usize = 20;

/// The lowercase hexadecimal digit for a value below sixteen.
pub open spec fn hex_digit(n: int) -> char {
    if n < 10 {
        (0x30 + n) as u8 as char
    } else {
        (0x61 + n - 10) as u8 as char
    }
}

/// The lowercase hexadecimal text of `data`: two digits per byte, the high
/// half first.
pub open spec fn hex_text(data: Seq<u8>) -> Seq<char> {
    Seq::new(
        2 * data.len(),
        |i: int|
            if i % 2 == 0 {
                hex_digit(data[i / 2] as int / 16)
            } else {
                hex_digit(data[i / 2] as int % 16)
            },
    )
}

/// Distinct values below sixteen have distinct hexadecimal digits.
pub proof fn lemma_hex_digit_injective(m: int, n: int)
    requires
        0 <= m < 16,
        0 <= n < 16,
        hex_digit(m) == hex_digit(n),
    ensures
        m == n,
{
    assert(hex_digit(m) as u32 == if m < 10 {
        0x30 + m
    } else {
        0x61 + m - 10
    });
    assert(hex_digit(n) as u32 == if n < 10 {
        0x30 + n
    } else {
        0x61 + n - 10
    });
}

/// Distinct byte strings of one length have distinct hexadecimal texts.
pub proof fn lemma_hex_text_injective(a: Seq<u8>, b: Seq<u8>)
    requires
        hex_text(a) == hex_text(b),
    ensures
        a == b,
{
    assert(hex_text(a).len() == 2 * a.len());
    assert(hex_text(b).len() == 2 * b.len());
    assert forall|k: int| 0 <= k < a.len() implies a[k] == b[k] by {
        assert(hex_text(a)[2 * k] == hex_digit(a[k] as int / 16));
        assert(hex_text(b)[2 * k] == hex_digit(b[k] as int / 16));
        assert(hex_text(a)[2 * k + 1] == hex_digit(a[k] as int % 16));
        assert(hex_text(b)[2 * k + 1] == hex_digit(b[k] as int % 16));
        lemma_hex_digit_injective(a[k] as int / 16, b[k] as int / 16);
        lemma_hex_digit_injective(a[k] as int % 16, b[k] as int % 16);
    }
    assert(a =~= b);
}

/// The value of a hexadecimal digit given as an ASCII byte, in either case.
pub open spec fn hex_value(c: u8) -> Option<int> {
    if 0x41 <= c <= 0x46 {
        Some(c - 0x41 + 10)
    } else if 0x61 <= c <= 0x66 {
        Some(c - 0x61 + 10)
    } else if 0x30 <= c <= 0x39 {
        Some(c - 0x30)
    } else {
        None
    }
}

/// The position of the first byte of `text`, at or after `from`, that is not
/// a hexadecimal digit; the length of `text` if there is none.
pub open spec fn first_non_hex(text: Seq<u8>, from: int) -> int
    decreases text.len() - from,
{
    if 0 <= from < text.len() && hex_value(text[from]) is Some {
        first_non_hex(text, from + 1)
    } else {
        from
    }
}

/// What decoding hexadecimal `text` gives: the bytes, or the first fault.
/// An odd length is reported before any bad digit.
pub open spec fn hex_decoded(text: Seq<u8>) -> Result<Seq<u8>, HexError> {
    let bad = first_non_hex(text, 0);
    if text.len() % 2 != 0 {
        Err(HexError::OddLength)
    } else if bad < text.len() {
        Err(HexError::InvalidHexCharacter { c: text[bad] as char, index: bad as usize })
    } else {
        Ok(
            Seq::new(
                text.len() / 2,
                |i: int| (16 * hex_value(text[2 * i])->0 + hex_value(text[2 * i + 1])->0) as u8,
            ),
        )
    }
}

/// The digest length that belongs to a multihash function code.
pub open spec fn multihash_size(code: u8) -> Option<int> {
    if code == 0x11 {
        Some(20)
    } else if code == 0x12 || code == 0x16 || code == 0x1B || code == 0x41 {
        Some(32)
    } else if code == 0x13 || code == 0x14 || code == 0x1D || code == 0x40 {
        Some(64)
    } else if code == 0x15 || code == 0x1C {
        Some(48)
    } else if code == 0x17 || code == 0x1A {
        Some(28)
    } else {
        None
    }
}

/// The digest carried by a multihash: the input without its two leading
/// bytes, when the first names a known hash function and the total length is
/// that function's digest length plus two. The second byte is not examined.
pub open spec fn multihash_digest(input: Seq<u8>) -> Result<Seq<u8>, MultihashError> {
    if input.len() == 0 {
        Err(MultihashError::BadInputLength)
    } else {
        match multihash_size(input[0]) {
            None => Err(MultihashError::UnknownCode),
            Some(n) => if input.len() != n + 2 {
                Err(MultihashError::BadInputLength)
            } else {
                Ok(input.skip(2))
            },
        }
    }
}

/// Calls `hex::encode`, which writes each byte as two lowercase hexadecimal
/// digits, high half first.
#[verifier::external_body]
fn hex_encode(data: &[u8]) -> (text: String)
    ensures
        text@ == hex_text(data@),
{
    hex::encode(data)
}

/// Calls `hex::decode` on the bytes of a text. It refuses an odd length
/// first, then reports the first byte that is no hexadecimal digit, and
/// otherwise folds each pair of digits into one byte.
#[verifier::external_body]
fn hex_decode(text: &[u8]) -> (r: Result<Vec<u8>, HexError>)
    ensures
        match r {
            Ok(bytes) => hex_decoded(text@) == Ok::<Seq<u8>, HexError>(bytes@),
            Err(e) => hex_decoded(text@) == Err::<Seq<u8>, HexError>(e),
        },
{
    match hex::decode(text) {
        Ok(bytes) => Ok(bytes),
        Err(hex::FromHexError::InvalidHexCharacter { c, index }) => Err(
            HexError::InvalidHexCharacter { c, index },
        ),
        Err(hex::FromHexError::OddLength) => Err(HexError::OddLength),
        Err(hex::FromHexError::InvalidStringLength) => Err(HexError::InvalidStringLength),
    }
}

/// Calls `multihash::decode` and copies the digest out. It refuses an empty
/// input, then an unknown function code, then a length other than the
/// function's digest length plus two.
#[verifier::external_body]
fn multihash_decode(input: &[u8]) -> (r: Result<Vec<u8>, MultihashError>)
    ensures
        match r {
            Ok(digest) => multihash_digest(input@) == Ok::<Seq<u8>, MultihashError>(digest@),
            Err(e) => multihash_digest(input@) == Err::<Seq<u8>, MultihashError>(e),
        },
{
    match multihash::decode(input) {
        Ok(hash) => Ok(hash.digest.to_vec()),
        Err(multihash::Error::UnsupportedType) => Err(MultihashError::UnsupportedType),
        Err(multihash::Error::BadInputLength) => Err(MultihashError::BadInputLength),
        Err(multihash::Error::UnknownCode) => Err(MultihashError::UnknownCode),
    }
}

/// The digest that a link's multihash carries.
pub fn link_digest(link: &[u8]) -> (r: Result<Vec<u8>, Error>)
    ensures
        match r {
            Ok(digest) => multihash_digest(link@) == Ok::<Seq<u8>, MultihashError>(digest@),
            Err(e) => multihash_digest(link@) is Err && e == Error::MultihashError(
                multihash_digest(link@)->Err_0,
            ),
        },
{
    match multihash_decode(link) {
        Ok(digest) => Ok(digest),
        Err(e) => Err(Error::MultihashError(e)),
    }
}

/// The identifier of an object: a digest of exactly twenty bytes.
#[derive(Clone, Copy, Debug, PartialEq, Eq, Hash)]
pub struct ObjectId {
    pub bytes: [u8; 20],
}

impl View for ObjectId {
    type V = Seq<u8>;

    open spec fn view(&self) -> Seq<u8> {
        self.bytes@
    }
}

impl ObjectId {
    /// Makes an identifier of a raw digest, which must be twenty bytes long.
    pub fn from_bytes(bytes: &[u8]) -> (r: Result<ObjectId, Error>)
        ensures
            match r {
                Ok(id) => bytes@.len() == OBJECT_ID_LEN && id@ == bytes@,
                Err(e) => bytes@.len() != OBJECT_ID_LEN && e == Error::InvalidDigestLength(
                    bytes.len(),
                ),
            },
    {
        if bytes.len() != OBJECT_ID_LEN {
            return Err(Error::InvalidDigestLength(bytes.len()));
        }
        let mut copy: [u8; 20] = [0u8; 20];
        let mut i: usize = 0;
        while i < 20
            invariant
                i <= 20,
                bytes@.len() == 20,
                forall|j: int| 0 <= j < i ==> copy@[j] == bytes@[j],
            decreases 20 - i,
        {
            copy[i] = bytes[i];
            i = i + 1;
        }
        assert(copy@ =~= bytes@);
        Ok(ObjectId { bytes: copy })
    }

    /// The raw digest.
    pub fn as_bytes(&self) -> (bytes: &[u8])
        ensures
            bytes@ == self@,
            bytes@.len() == OBJECT_ID_LEN,
    {
        self.bytes.as_slice()
    }

    /// The identifier as forty lowercase hexadecimal digits.
    pub fn to_hex(&self) -> (text: String)
        ensures
            text@ == hex_text(self@),
    {
        hex_encode(self.bytes.as_slice())
    }
}

/// What parsing hexadecimal `text` as an identifier gives.
pub open spec fn object_id_of_hex(text: Seq<u8>) -> Result<Seq<u8>, Error> {
    match hex_decoded(text) {
        Err(e) => Err(Error::FromHexError(e)),
        Ok(bytes) => if bytes.len() == OBJECT_ID_LEN {
            Ok(bytes)
        } else {
            Err(Error::InvalidDigestLength(bytes.len() as usize))
        },
    }
}

impl ObjectId {
    /// Parses an identifier from hexadecimal text, in either case: forty
    /// digits exactly.
    pub fn from_hex(text: &str) -> (r: Result<ObjectId, Error>)
        ensures
            match r {
                Ok(id) => object_id_of_hex(encode_utf8(text@)) == Ok::<Seq<u8>, Error>(id@),
                Err(e) => object_id_of_hex(encode_utf8(text@)) == Err::<Seq<u8>, Error>(e),
            },
    {
        match hex_decode(text.as_bytes()) {
            Err(e) => Err(Error::FromHexError(e)),
            Ok(bytes) => ObjectId::from_bytes(bytes.as_slice()),
        }
    }
}

} // verus!
