//! Transport-level peer identities.

use vstd::prelude::*;

verus! {

/// Number of bytes in a peer identity.
pub const PEER_ID_LEN: usize = 32;

/// Number of leading identity bytes shown by the short form.
pub const SHORT_ID_LEN: usize = 5;

/// The lower-case hexadecimal digit for a value below sixteen.
pub open spec fn hex_digit(n: int) -> char {
    if n < 10 {
        ((48 + n) as u8) as char
    } else {
        ((87 + n) as u8) as char
    }
}

/// Lower-case hexadecimal text of a byte string, two digits per byte.
pub open spec fn hex_text(bytes: Seq<u8>) -> Seq<char> {
    Seq::new(
        2 * bytes.len(),
        |i: int|
            if i % 2 == 0 {
                hex_digit(bytes[i / 2] as int / 16)
            } else {
                hex_digit(bytes[i / 2] as int % 16)
            },
    )
}

/// The short form of an identity: its first five bytes in hexadecimal.
pub open spec fn short_text(id: Seq<u8>) -> Seq<char> {
    hex_text(id.take(SHORT_ID_LEN as int))
}

/// Appends one character to a string (`String::push`).
pub assume_specification[ String::push ](s: &mut String, c: char)
    ensures
        final(s)@ == old(s)@.push(c),
;

/// An opaque, globally unique identity of a participant, as the transport
/// supplies it.
#[derive(Clone, Copy, Debug, PartialEq, Eq, Hash)]
pub struct PeerId {
    bytes: [u8; 32],
}

impl View for PeerId {
    type V = Seq<u8>;

    closed spec fn view(&self) -> Seq<u8> {
        self.bytes@
    }
}

fn hex_digit_of(n: u8) -> (c: char)
    requires
        n < 16,
    ensures
        c == hex_digit(n as int),
{
    if n < 10 {
        (48 + n) as char
    } else {
        (87 + n) as char
    }
}

/// Lower-case hexadecimal text of the first `count` bytes of `bytes`.
pub(crate) fn hex_prefix(bytes: &[u8], count: usize) -> (text: String)
    requires
        count <= bytes@.len(),
    ensures
        text@ == hex_text(bytes@.take(count as int)),
{
    let mut text = String::new();
    let mut i: usize = 0;
    while i < count
        invariant
            i <= count <= bytes@.len(),
            text@ == hex_text(bytes@.take(i as int)),
        decreases count - i,
    {
        let b: u8 = bytes[i];
        text.push(hex_digit_of(b / 16));
        text.push(hex_digit_of(b % 16));
        i += 1;
        assert(text@ =~= hex_text(bytes@.take(i as int)));
    }
    text
}

impl PeerId {
    /// The identity made of the given bytes.
    pub fn from_bytes(bytes: [u8; 32]) -> (id: PeerId)
        ensures
            id@ == bytes@,
    {
        PeerId { bytes }
    }

    /// The bytes of the identity.
    pub fn as_bytes(&self) -> (bytes: &[u8; 32])
        ensures
            bytes@ == self@,
    {
        &self.bytes
    }

    /// Every identity has exactly 32 bytes.
    pub proof fn lemma_len(&self)
        ensures
            self@.len() == PEER_ID_LEN,
    {
    }

    /// Whether two identities are the same.
    pub fn same(&self, other: &PeerId) -> (eq: bool)
        ensures
            eq == (self@ == other@),
    {
        let mut i: usize = 0;
        while i < 32
            invariant
                i <= 32,
                forall|k: int| 0 <= k < i ==> self.bytes@[k] == other.bytes@[k],
            decreases 32 - i,
        {
            if self.bytes[i] != other.bytes[i] {
                return false;
            }
            i += 1;
        }
        assert(self.bytes@ =~= other.bytes@);
        true
    }

    /// The full identity as 64 lower-case hexadecimal digits.
    pub fn to_hex(&self) -> (text: String)
        ensures
            text@ == hex_text(self@),
    {
        let text = hex_prefix(self.bytes.as_slice(), PEER_ID_LEN);
        assert(self.bytes@.take(PEER_ID_LEN as int) =~= self.bytes@);
        text
    }

    /// The short form used in notices: the first five bytes in hexadecimal.
    pub fn fmt_short(&self) -> (text: String)
        ensures
            text@ == short_text(self@),
    {
        hex_prefix(self.bytes.as_slice(), SHORT_ID_LEN)
    }
}

} // verus!
