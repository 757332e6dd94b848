//! Version-control objects: their kinds and their canonical encoded form.

use vstd::prelude::*;
use vstd::string::StrSliceExecFns;
use vstd::string::StringExecFns;
use crate::digest::{hex_text, lemma_hex_text_injective, ObjectId};

verus! {

/// The four kinds of object in the version-control object graph.
#[derive(Clone, Copy, Debug, PartialEq, Eq, Structural)]
pub enum ObjectKind {
    Blob,
    Tree,
    Commit,
    Tag,
}

impl ObjectKind {
    /// The ASCII word that opens the header of an encoded object of this kind.
    pub open spec fn word(self) -> Seq<u8> {
        match self {
            ObjectKind::Blob => seq![0x62u8, 0x6c, 0x6f, 0x62],
            ObjectKind::Tree => seq![0x74u8, 0x72, 0x65, 0x65],
            ObjectKind::Commit => seq![0x63u8, 0x6f, 0x6d, 0x6d, 0x69, 0x74],
            ObjectKind::Tag => seq![0x74u8, 0x61, 0x67],
        }
    }

    /// Appends the header word of this kind to `out`.
    pub fn write_word(&self, out: &mut Vec<u8>)
        ensures
            final(out)@ == old(out)@ + self.word(),
    {
        match self {
            ObjectKind::Blob => {
                out.push(0x62);
                out.push(0x6c);
                out.push(0x6f);
                out.push(0x62);
            },
            ObjectKind::Tree => {
                out.push(0x74);
                out.push(0x72);
                out.push(0x65);
                out.push(0x65);
            },
            ObjectKind::Commit => {
                out.push(0x63);
                out.push(0x6f);
                out.push(0x6d);
                out.push(0x6d);
                out.push(0x69);
                out.push(0x74);
            },
            ObjectKind::Tag => {
                out.push(0x74);
                out.push(0x61);
                out.push(0x67);
            },
        }
        assert(out@ =~= old(out)@ + self.word());
    }
}

/// The decimal digits of `n` in ASCII, most significant first, without
/// leading zeros (`0` is the single digit `0`).
pub open spec fn decimal(n: nat) -> Seq<u8>
    decreases n,
{
    if n < 10 {
        seq![(0x30 + n) as u8]
    } else {
        decimal(n / 10).push((0x30 + n % 10) as u8)
    }
}

/// The encoded form of an object: the kind word, a space, the payload length
/// in decimal, a zero byte, and the payload itself.
pub open spec fn encoded(kind: ObjectKind, payload: Seq<u8>) -> Seq<u8> {
    kind.word() + seq![0x20u8] + decimal(payload.len()) + seq![0u8] + payload
}

/// Appends the decimal digits of `n` to `out`.
pub fn write_decimal(n: usize, out: &mut Vec<u8>)
    ensures
        final(out)@ == old(out)@ + decimal(n as nat),
    decreases n,
{
    if n < 10 {
        let digit: u8 = 0x30 + (n as u8);
        out.push(digit);
        assert(out@ =~= old(out)@ + decimal(n as nat));
    } else {
        write_decimal(n / 10, out);
        let digit: u8 = 0x30 + ((n % 10) as u8);
        out.push(digit);
        assert(out@ =~= old(out)@ + decimal(n as nat));
    }
}

/// Builds the encoded form of an object from its kind and raw payload.
pub fn encode(kind: ObjectKind, payload: &[u8]) -> (out: Vec<u8>)
    ensures
        out@ == encoded(kind, payload@),
{
    let mut out: Vec<u8> = Vec::new();
    kind.write_word(&mut out);
    out.push(0x20);
    write_decimal(payload.len(), &mut out);
    out.push(0);
    let mut i: usize = 0;
    while i < payload.len()
        invariant
            i <= payload.len(),
            out@ == kind.word() + seq![0x20u8] + decimal(payload@.len()) + seq![0u8]
                + payload@.subrange(0, i as int),
        decreases payload.len() - i,
    {
        out.push(payload[i]);
        i = i + 1;
    }
    assert(payload@.subrange(0, i as int) =~= payload@);
    out
}

/// Where a loose object is kept below the repository's metadata directory:
/// the directory named by the first two hexadecimal digits of its
/// identifier, and in it the file named by the other thirty-eight.
#[derive(Clone, Debug, PartialEq, Eq)]
pub struct ObjectPath {
    pub directory: String,
    pub file: String,
}

/// The name of the directory that holds all loose objects.
pub open spec fn objects_root() -> Seq<char> {
    "objects"@
}

/// The shard directory of an identifier: its first two hexadecimal digits.
pub open spec fn shard_directory(id: Seq<u8>) -> Seq<char> {
    hex_text(id).subrange(0, 2)
}

/// The file name of an identifier within its shard directory: its
/// hexadecimal digits after the second.
pub open spec fn shard_file(id: Seq<u8>) -> Seq<char> {
    hex_text(id).subrange(2, hex_text(id).len() as int)
}

/// Distinct digests have distinct loose-object paths.
pub proof fn lemma_shard_injective(a: Seq<u8>, b: Seq<u8>)
    requires
        a.len() >= 1,
        b.len() >= 1,
        shard_directory(a) == shard_directory(b),
        shard_file(a) == shard_file(b),
    ensures
        a == b,
{
    let x = hex_text(a);
    let y = hex_text(b);
    assert(shard_file(a).len() == x.len() - 2);
    assert(shard_file(b).len() == y.len() - 2);
    assert forall|i: int| 0 <= i < x.len() implies x[i] == y[i] by {
        if i < 2 {
            assert(x[i] == shard_directory(a)[i]);
            assert(y[i] == shard_directory(b)[i]);
        } else {
            assert(x[i] == shard_file(a)[i - 2]);
            assert(y[i] == shard_file(b)[i - 2]);
        }
    }
    assert(x =~= y);
    lemma_hex_text_injective(a, b);
}

/// The place of the loose object with identifier `id`.
pub fn prepare_object_path(id: &ObjectId) -> (path: ObjectPath)
    ensures
        path.directory@ == shard_directory(id@),
        path.file@ == shard_file(id@),
{
    let hex = id.to_hex();
    let text = hex.as_str();
    let directory = text.substring_char(0, 2).to_owned();
    let file = text.substring_char(2, 40).to_owned();
    ObjectPath { directory, file }
}

impl ObjectPath {
    /// The path relative to the metadata directory, with `/` between its
    /// parts: `objects/`, the directory, `/`, the file.
    pub fn relative(&self) -> (text: String)
        ensures
            text@ == objects_root() + seq!['/'] + self.directory@ + seq!['/'] + self.file@,
    {
        proof {
            reveal_strlit("/");
        }
        let mut text = String::from_str("objects");
        text.append("/");
        text.append(self.directory.as_str());
        text.append("/");
        text.append(self.file.as_str());
        assert("/"@ =~= seq!['/']);
        text
    }
}

} // verus!
