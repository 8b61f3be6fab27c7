//! Strict Windows-1251 decoding through the `encoding` crate: one character
//! per byte, failing on bytes the table leaves unassigned.

use vstd::prelude::*;

verus! {

/// What the Windows-1251 table maps one byte to: a character, or nothing
/// for a byte the table leaves unassigned.
pub uninterp spec fn win1251_char(b: u8) -> Option<char>;

/// Whether every byte of the sequence is assigned in the table.
pub open spec fn win1251_ok(bytes: Seq<u8>) -> bool {
    forall|i: int| 0 <= i < bytes.len() ==> (#[trigger] win1251_char(bytes[i])) is Some
}

/// The decoded text: one character per byte.
pub open spec fn win1251_decode(bytes: Seq<u8>) -> Seq<char> {
    Seq::new(bytes.len(), |i: int| win1251_char(bytes[i])->0)
}

/// Relies on `encoding::all::WINDOWS_1251` with `DecoderTrap::Strict`: a
/// single-byte codec that maps each byte independently through its fixed
/// table (the identity below 0x80) and fails the whole input when any byte
/// is unassigned.
#[verifier::external_body]
pub(crate) fn decode_win1251(bytes: &[u8]) -> (r: Option<Vec<char>>)
    ensures
        r is Some <==> win1251_ok(bytes@),
        r matches Some(cs) ==> cs@ == win1251_decode(bytes@),
        r matches Some(cs) ==> forall|i: int|
            0 <= i < bytes@.len() ==> Some(cs@[i]) == #[trigger] win1251_char(bytes@[i]),
        r matches Some(cs) ==> forall|i: int|
            0 <= i < bytes@.len() && bytes@[i] < 0x80 ==> #[trigger] cs@[i] == bytes@[i] as char,
{
    match encoding::Encoding::decode(
        encoding::all::WINDOWS_1251,
        bytes,
        encoding::DecoderTrap::Strict,
    ) {
        Ok(s) => Some(s.chars().collect()),
        Err(_) => None,
    }
}

} // verus!
