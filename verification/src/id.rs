//! Library identifiers.

use vstd::prelude::*;

verus! {

/// The prefix of a library identifier.
pub const LIB_ID_HRI: &'static str = "stl";

/// The length of the first block of characters of a library identifier.
pub const LIB_ID_CHUNK_FIRST: usize = 8;

/// The length of its further blocks.
pub const LIB_ID_CHUNK_LEN: usize = 7;

/// The Baid64 text of 32 bytes under the prefix `hri`: the bytes in a
/// 64-character alphabet, cut into a block of `chunk_first` and blocks of
/// `chunk_len` characters joined by `-` where `chunking` is set; before them
/// the prefix and `:` where `prefix` is set; behind them `#` and three words
/// that serve as a checksum where `mnemonic` is set. Where `embed_checksum`
/// is set the checksum is encoded with the bytes.
pub uninterp spec fn baid64_text(
    hri: Seq<char>,
    payload: Seq<u8>,
    chunking: bool,
    chunk_first: usize,
    chunk_len: usize,
    prefix: bool,
    mnemonic: bool,
    embed_checksum: bool,
) -> Seq<char>;

/// The text of a library identifier with the given 32 bytes: `stl:`, six
/// blocks of characters joined by `-`, then `#` and three words.
pub open spec fn stl_text(payload: Seq<u8>) -> Seq<char> {
    baid64_text(
        LIB_ID_HRI@,
        payload,
        true,
        LIB_ID_CHUNK_FIRST,
        LIB_ID_CHUNK_LEN,
        true,
        true,
        false,
    )
}

/// The identifier text tells the identities `x` and `y` apart.
pub open spec fn text_tells_apart(x: Seq<u8>, y: Seq<u8>) -> bool {
    stl_text(x) == stl_text(y) ==> x == y
}

/// Calls `baid64::Baid64Display::with` and formats what it returns. The text
/// is a function of the prefix, the 32 bytes and the settings alone. The
/// prefix may have 16 bytes; the first block must fit into the 43 characters
/// that 32 bytes make, and further blocks must not be empty.
#[verifier::external_body]
fn baid64_display(
    hri: &'static str,
    payload: [u8; 32],
    chunking: bool,
    chunk_first: usize,
    chunk_len: usize,
    prefix: bool,
    mnemonic: bool,
    embed_checksum: bool,
) -> (text: String)
    requires
        vstd::string::is_ascii(hri),
        hri@.len() <= 16,
        chunking ==> chunk_first <= 43 && chunk_len >= 1,
    ensures
        text@ == baid64_text(
            hri@,
            payload@,
            chunking,
            chunk_first,
            chunk_len,
            prefix,
            mnemonic,
            embed_checksum,
        ),
{
    baid64::Baid64Display::with(
        hri, payload, chunking, chunk_first, chunk_len, prefix, mnemonic, embed_checksum,
    ).to_string()
}

/// The identity of a compiled library: the digest of its canonical
/// serialisation. An identifier is derived from content, never chosen.
#[derive(Clone, Copy, Debug, Hash)]
pub struct TypeLibId {
    bytes: [u8; 32],
}

impl View for TypeLibId {
    type V = Seq<u8>;

    closed spec fn view(&self) -> Seq<u8> {
        self.bytes@
    }
}

impl TypeLibId {
    /// An identifier is 32 bytes long.
    pub proof fn lemma_len(self)
        ensures
            self@.len() == 32,
    {
    }

    /// The identifier with the given bytes.
    pub fn from_byte_array(bytes: [u8; 32]) -> (id: TypeLibId)
        ensures
            id@ == bytes@,
    {
        TypeLibId { bytes }
    }

    /// The bytes of the identifier.
    pub fn to_byte_array(&self) -> (bytes: [u8; 32])
        ensures
            bytes@ == self@,
    {
        self.bytes
    }

    /// The identifier as text: under the prefix `stl`, in blocks of 8 and 7
    /// characters, with the prefix and the mnemonic written.
    pub fn to_string(&self) -> (text: String)
        ensures
            text@ == stl_text(self@),
    {
        proof {
            reveal_strlit("stl");
        }
        baid64_display(
            LIB_ID_HRI,
            self.bytes,
            true,
            LIB_ID_CHUNK_FIRST,
            LIB_ID_CHUNK_LEN,
            true,
            true,
            false,
        )
    }

    /// Tells whether two identifiers hold the same bytes.
    pub fn same(&self, other: &TypeLibId) -> (same: bool)
        ensures
            same == (self@ == other@),
    {
        let mut i: usize = 0;
        while i < 32
            invariant
                0 <= i <= 32,
                forall|j: int| 0 <= j < i ==> self.bytes@[j] == other.bytes@[j],
            decreases 32 - i,
        {
            if self.bytes[i] != other.bytes[i] {
                return false;
            }
            i += 1;
        }
        assert(self.bytes@ =~= other.bytes@);
        true
    }
}

impl PartialEq for TypeLibId {
    fn eq(&self, other: &TypeLibId) -> (same: bool) {
        self.same(other)
    }
}

impl vstd::std_specs::cmp::PartialEqSpecImpl for TypeLibId {
    open spec fn obeys_eq_spec() -> bool {
        true
    }

    open spec fn eq_spec(&self, other: &TypeLibId) -> bool {
        self@ == other@
    }
}

impl Eq for TypeLibId {

}

} // verus!
