//! Block hashes, which also name chains.

use vstd::prelude::*;

verus! {

/// Size of a block hash, in bytes.
pub const DIGEST: usize = 45;

/// Length of the text form of a block hash, in characters.
pub const Z32DIGEST: usize = 72;

/// The hash of a block. A chain is named by the hash of its first block, and
/// the text form of that hash is the chain's segment in the remote path.
#[derive(Clone, Copy, Debug, PartialEq, Eq)]
pub struct BlockHash {
    pub bytes: [u8; DIGEST],
}

/// The Zbase32 text of a hash, as `zf_zebrachain::Hash::to_z32_string` writes it.
pub uninterp spec fn z32_text(bytes: Seq<u8>) -> Seq<char>;

/// The bytes that `zf_zebrachain::Hash::from_z32` reads out of a text it accepts.
pub uninterp spec fn z32_bytes(text: Seq<u8>) -> Seq<u8>;

/// Whether `b` is one of the 32 symbols of the text form: `4` to `9`, `A` to `Z`.
pub open spec fn is_z32_symbol(b: u8) -> bool {
    (0x34 <= b <= 0x39) || (0x41 <= b <= 0x5a)
}

/// Whether `text` has the shape of a hash's text form: 72 symbols.
pub open spec fn is_z32_text(text: Seq<u8>) -> bool {
    &&& text.len() == Z32DIGEST as nat
    &&& forall|i: int| 0 <= i < text.len() ==> is_z32_symbol(#[trigger] text[i])
}

/// `zf_zebrachain::Hash::to_z32_string` on the hash made of `bytes`. The text is
/// a function of the bytes alone; here it only has a name.
#[verifier::external_body]
fn hash_to_z32(bytes: &[u8; DIGEST]) -> (text: String)
    ensures
        text@ == z32_text(bytes@),
{
    zf_zebrachain::Hash::from_bytes(*bytes).to_z32_string()
}

/// `zf_zebrachain::Hash::from_z32`. It accepts exactly the texts of 72 symbols,
/// each `4` to `9` or `A` to `Z`; the bytes it reads out of one only have a name.
#[verifier::external_body]
fn hash_from_z32(text: &[u8]) -> (bytes: Option<[u8; DIGEST]>)
    ensures
        bytes is Some <==> is_z32_text(text@),
        bytes matches Some(b) ==> b@ == z32_bytes(text@),
{
    match zf_zebrachain::Hash::from_z32(text) {
        Ok(hash) => Some(*hash.as_bytes()),
        Err(_) => None,
    }
}

impl View for BlockHash {
    type V = Seq<u8>;

    open spec fn view(&self) -> Seq<u8> {
        self.bytes@
    }
}

impl BlockHash {
    /// The hash made of `bytes`.
    pub fn new(bytes: [u8; DIGEST]) -> (hash: BlockHash)
        ensures
            hash@ == bytes@,
            hash.bytes == bytes,
    {
        BlockHash { bytes }
    }

    /// Reads a hash from its text form. A text that is not 72 symbols long, or
    /// holds anything but the symbols `4` to `9` and `A` to `Z`, is no hash.
    pub fn from_z32(text: &[u8]) -> (hash: Option<BlockHash>)
        ensures
            hash is Some <==> is_z32_text(text@),
            hash matches Some(h) ==> h@ == z32_bytes(text@),
    {
        match hash_from_z32(text) {
            Some(bytes) => Some(BlockHash { bytes }),
            None => None,
        }
    }

    /// The text form of the hash.
    pub fn to_z32(&self) -> (text: String)
        ensures
            text@ == z32_text(self@),
    {
        hash_to_z32(&self.bytes)
    }

    /// Whether two hashes hold the same bytes.
    pub fn same_as(&self, other: &BlockHash) -> (same: bool)
        ensures
            same == (self@ == other@),
    {
        let mut i: usize = 0;
        while i < DIGEST
            invariant
                i <= DIGEST,
                forall|j: int| 0 <= j < i ==> self.bytes@[j] == other.bytes@[j],
            decreases DIGEST - i,
        {
            if self.bytes[i] != other.bytes[i] {
                return false;
            }
            i += 1;
        }
        assert(self@ =~= other@);
        true
    }
}

} // verus!
