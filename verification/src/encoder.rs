//! Writing the binary format, by way of the `wasm-encoder` crate.

use vstd::prelude::*;

use wasm_encoder::Module as Encoder;

use crate::wasm::{Range, RawSection, RawSectionView};

verus! {

/// `wasm_encoder::Module`, known only by [`encoded_bytes`].
#[verifier::external_type_specification]
#[verifier::external_body]
pub struct ExEncoder(Encoder);

/// The bytes that have been written to a module.
pub uninterp spec fn encoded_bytes(module: Encoder) -> Seq<u8>;

/// The bytes that every binary starts with: the magic number and the version.
pub open spec fn preamble() -> Seq<u8> {
    seq![0x00u8, 0x61u8, 0x73u8, 0x6du8, 0x01u8, 0x00u8, 0x00u8, 0x00u8]
}

/// A number in the LEB128 notation, in as few bytes as it takes: seven bits to
/// a byte, the lowest first, with the high bit set in all but the last.
pub open spec fn leb128(n: nat) -> Seq<u8>
    decreases n,
{
    if n < 128 {
        seq![n as u8]
    } else {
        seq![(128 + n % 128) as u8] + leb128(n / 128)
    }
}

/// Whether bytes are a number in the LEB128 notation, in as few bytes as it
/// takes or in more.
pub open spec fn is_leb128(bytes: Seq<u8>, n: nat) -> bool
    decreases bytes.len(),
{
    if bytes.len() == 0 {
        false
    } else if bytes.len() == 1 {
        n < 128 && bytes[0] == n
    } else {
        bytes[0] == 128 + n % 128 && is_leb128(bytes.drop_first(), n / 128)
    }
}

/// Whether the bytes from `position` of a binary on, which are `data`, start
/// with the header of a section whose contents lie in `range`: the code of the
/// section, and the length of the contents, up to where they start.
pub open spec fn headed(data: Seq<u8>, position: nat, code: u8, range: Range) -> bool {
    &&& position + 1 < range.start <= range.end
    &&& range.start <= position + data.len()
    &&& data[0] == code
    &&& is_leb128(data.subrange(1, range.start - position), (range.end - range.start) as nat)
}

/// The bytes that stand for a section: its code, the length of its contents,
/// and the contents.
pub open spec fn section_bytes(section: RawSectionView) -> Seq<u8> {
    seq![section.id] + leb128(section.data.len()) + section.data
}

/// The bytes that stand for sections that follow one another.
pub open spec fn sections_bytes(sections: Seq<RawSectionView>) -> Seq<u8>
    decreases sections.len(),
{
    if sections.len() == 0 {
        Seq::empty()
    } else {
        sections_bytes(sections.drop_last()) + section_bytes(sections.last())
    }
}

/// `wasm_encoder::Module::new`: a module that holds the preamble.
#[verifier::external_body]
pub(crate) fn new_module() -> (r: Encoder)
    ensures
        encoded_bytes(r) == preamble(),
{
    Encoder::new()
}

/// `wasm_encoder::Module::section` with a `wasm_encoder::RawSection`: the
/// section is written behind what is there. It panics where the length of the
/// contents is no `u32`.
#[verifier::external_body]
pub(crate) fn write_section(module: &mut Encoder, section: &RawSection<'_>)
    requires
        section.data@.len() <= u32::MAX,
    ensures
        encoded_bytes(*final(module)) == encoded_bytes(*old(module)) + section_bytes(section@),
{
    module.section(&wasm_encoder::RawSection { id: section.id, data: section.data });
}

} // verus!
