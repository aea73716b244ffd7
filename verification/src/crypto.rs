//! Hashes and addresses, computed by the Tapedrive crates

use vstd::prelude::*;

verus! {

/// The SHA-256 of some bytes
pub uninterp spec fn sha256(bytes: Seq<u8>) -> [u8; 32];

/// The bytes an address text stands for, if it is one
pub uninterp spec fn address_bytes(text: Seq<char>) -> Option<[u8; 32]>;

/// The text an address is written as
pub uninterp spec fn address_text(bytes: [u8; 32]) -> Seq<char>;

/// The address a track is kept under
pub uninterp spec fn track_address_bytes(tape: [u8; 32], track: u64) -> [u8; 32];

/// A lower-case hexadecimal digit
pub open spec fn hex_digit(d: int) -> char {
    if d == 0 {
        '0'
    } else if d == 1 {
        '1'
    } else if d == 2 {
        '2'
    } else if d == 3 {
        '3'
    } else if d == 4 {
        '4'
    } else if d == 5 {
        '5'
    } else if d == 6 {
        '6'
    } else if d == 7 {
        '7'
    } else if d == 8 {
        '8'
    } else if d == 9 {
        '9'
    } else if d == 10 {
        'a'
    } else if d == 11 {
        'b'
    } else if d == 12 {
        'c'
    } else if d == 13 {
        'd'
    } else if d == 14 {
        'e'
    } else {
        'f'
    }
}

/// Bytes in lower-case hexadecimal, two digits each, high digit first
pub open spec fn hex_text(bytes: Seq<u8>) -> Seq<char> {
    Seq::new(
        bytes.len() * 2,
        |i: int|
            if i % 2 == 0 {
                hex_digit(bytes[i / 2] as int / 16)
            } else {
                hex_digit(bytes[i / 2] as int % 16)
            },
    )
}

/// Hash some bytes with `tape_crypto::hash::hash`
///
/// Claims that the hash, which that crate documents as SHA-256, depends on the bytes alone.
#[verifier::external_body]
pub(crate) fn hash(bytes: &[u8]) -> (hash: [u8; 32])
    ensures
        hash == sha256(bytes@),
{
    tape_crypto::hash::hash(bytes).to_bytes()
}

/// Write bytes in hexadecimal with `hex::encode`
///
/// Claims that the text is the lower-case hexadecimal of the bytes.
#[verifier::external_body]
pub(crate) fn hex(bytes: &[u8; 32]) -> (text: String)
    ensures
        text@ == hex_text(bytes@),
{
    hex::encode(bytes)
}

/// Parse an address text with `tape_crypto`'s `Address`
///
/// Claims that the outcome depends on the text alone.
#[verifier::external_body]
pub(crate) fn parse_address(text: &str) -> (address: Option<[u8; 32]>)
    ensures
        address == address_bytes(text@),
{
    text.parse::<tape_crypto::prelude::Address>().ok().map(|address| address.to_bytes())
}

/// Write an address as text with `tape_crypto`'s `Address`
///
/// Claims that the text depends on the bytes alone, that parsing it gives them back, and that,
/// being base58, it holds no line feed.
#[verifier::external_body]
pub(crate) fn show_address(bytes: &[u8; 32]) -> (text: String)
    ensures
        text@ == address_text(*bytes),
        address_bytes(text@) == Some(*bytes),
        !text@.contains('\n'),
{
    tape_crypto::prelude::Address::new(*bytes).to_string()
}

/// Derive the address of a track with `tape_api::program::tapedrive::track_pda`
///
/// Claims that the address depends on the tape and the track number alone. The derivation
/// searches 255 candidates and stops at the first that is off the curve; it would panic if
/// all of them were on it, which is not known to happen for any input.
#[verifier::external_body]
pub(crate) fn derive_track(tape: &[u8; 32], track: u64) -> (address: [u8; 32])
    ensures
        address == track_address_bytes(*tape, track),
{
    tape_api::program::tapedrive::track_pda(
        tape_crypto::prelude::Address::new(*tape),
        tape_core::types::TrackNumber(track),
    ).0.to_bytes()
}

/// What a lower-case hexadecimal digit stands for
pub open spec fn hex_value(c: char) -> int {
    if '0' <= c && c <= '9' {
        c as int - '0' as int
    } else {
        c as int - 'a' as int + 10
    }
}

/// A byte reads back from its two hexadecimal digits, which are lower-case
pub proof fn hexadecimal_reads_back(bytes: Seq<u8>, i: int)
    requires
        0 <= i < bytes.len(),
    ensures
        hex_text(bytes).len() == 2 * bytes.len(),
        hex_value(hex_text(bytes)[2 * i]) * 16 + hex_value(hex_text(bytes)[2 * i + 1]) == bytes[i],
        '0' <= hex_text(bytes)[2 * i] <= '9' || 'a' <= hex_text(bytes)[2 * i] <= 'f',
        '0' <= hex_text(bytes)[2 * i + 1] <= '9' || 'a' <= hex_text(bytes)[2 * i + 1] <= 'f',
{
    let high = bytes[i] as int / 16;
    let low = bytes[i] as int % 16;
    assert(hex_text(bytes)[2 * i] == hex_digit(high)) by {
        assert((2 * i) % 2 == 0 && (2 * i) / 2 == i);
    }
    assert(hex_text(bytes)[2 * i + 1] == hex_digit(low)) by {
        assert((2 * i + 1) % 2 == 1 && (2 * i + 1) / 2 == i);
    }
}

} // verus!
