//! The four-letter names of pixel formats.

use vstd::prelude::*;

use crate::bytes::same_bytes;

verus! {

/// `BGRA`: eight bits each of blue, green, red and alpha.
pub open spec fn bgra_name() -> Seq<u8> {
    seq![66u8, 71u8, 82u8, 65u8]
}

/// ` 8AG`: eight bits each of gray and alpha.
pub open spec fn ga8_name() -> Seq<u8> {
    seq![32u8, 56u8, 65u8, 71u8]
}

/// `61AG`: sixteen bits each of gray and alpha.
pub open spec fn ga16_name() -> Seq<u8> {
    seq![54u8, 49u8, 65u8, 71u8]
}

/// `BGRA`.
pub fn bgra() -> (format: [u8; 4])
    ensures
        format@ == bgra_name(),
{
    let format: [u8; 4] = [66, 71, 82, 65];
    assert(format@ =~= bgra_name());
    format
}

/// ` 8AG`.
pub fn ga8() -> (format: [u8; 4])
    ensures
        format@ == ga8_name(),
{
    let format: [u8; 4] = [32, 56, 65, 71];
    assert(format@ =~= ga8_name());
    format
}

/// `61AG`.
pub fn ga16() -> (format: [u8; 4])
    ensures
        format@ == ga16_name(),
{
    let format: [u8; 4] = [54, 49, 65, 71];
    assert(format@ =~= ga16_name());
    format
}

/// Whether a format is `BGRA`.
pub fn is_bgra(format: &[u8]) -> (answer: bool)
    ensures
        answer == (format@ == bgra_name()),
{
    same_bytes(format, &bgra())
}

/// Whether a format is ` 8AG`.
pub fn is_ga8(format: &[u8]) -> (answer: bool)
    ensures
        answer == (format@ == ga8_name()),
{
    same_bytes(format, &ga8())
}

/// Whether a format is `61AG`.
pub fn is_ga16(format: &[u8]) -> (answer: bool)
    ensures
        answer == (format@ == ga16_name()),
{
    same_bytes(format, &ga16())
}

} // verus!
