//! Recognising ELF images.
use vstd::prelude::*;
use elf_rs::Elf;

verus! {

/// The buffer opens with the four ELF magic bytes `7f 'E' 'L' 'F'`.
pub open spec fn has_elf_magic(content: Seq<u8>) -> bool {
    &&& content.len() >= 4
    &&& content[0] == 0x7f
    &&& content[1] == 0x45
    &&& content[2] == 0x4c
    &&& content[3] == 0x46
}

/// What any buffer that `elf_rs` accepts looks like: at least a 32-bit header's 52
/// bytes, the magic, a class byte of 1 (32-bit) or 2 (64-bit), and for the 64-bit
/// class at least that header's 64 bytes.
pub open spec fn elf_shape(content: Seq<u8>) -> bool {
    &&& content.len() >= 52
    &&& has_elf_magic(content)
    &&& (content[4] == 1 || content[4] == 2)
    &&& (content[4] == 2 ==> content.len() >= 64)
}

/// Where the header-size field sits: byte 40 of a 32-bit header, byte 52 of a 64-bit one.
pub open spec fn header_size_offset(content: Seq<u8>) -> int {
    if content[4] == 1 {
        40
    } else {
        52
    }
}

/// The two-byte header-size field read least significant byte first.
pub open spec fn header_size_le(content: Seq<u8>) -> int {
    let off = header_size_offset(content);
    content[off] + 256 * content[off + 1]
}

/// The two-byte header-size field read most significant byte first.
pub open spec fn header_size_be(content: Seq<u8>) -> int {
    let off = header_size_offset(content);
    256 * content[off] + content[off + 1]
}

/// Calls `elf_rs::Elf::from_bytes` and reports whether it succeeded. Claimed, as the
/// crate's source shows: it succeeds only on buffers of the shape above whose
/// header-size field, read in the machine's byte order, is at most the buffer's
/// length; so success implies that one of the two byte orders fits, and a shaped
/// buffer on which both byte orders fit is always accepted. Which byte order the
/// machine uses is not stated.
#[verifier::external_body]
fn elf_parses(content: &[u8]) -> (ok: bool)
    ensures
        ok ==> elf_shape(content@),
        ok ==> header_size_le(content@) <= content@.len() || header_size_be(content@)
            <= content@.len(),
        elf_shape(content@) && header_size_le(content@) <= content@.len() && header_size_be(
            content@,
        ) <= content@.len() ==> ok,
{
    match Elf::from_bytes(content) {
        Ok(_) => true,
        Err(_) => false,
    }
}

/// Whether `content` is an ELF image that `elf_rs` can read.
pub fn is_valid_elf(content: &[u8]) -> (valid: bool)
    ensures
        valid ==> elf_shape(content@),
        valid ==> header_size_le(content@) <= content@.len() || header_size_be(content@)
            <= content@.len(),
        elf_shape(content@) && header_size_le(content@) <= content@.len() && header_size_be(
            content@,
        ) <= content@.len() ==> valid,
{
    elf_parses(content)
}

pub fn add(left: usize, right: usize) -> (sum: usize)
    requires
        left + right <= usize::MAX,
    ensures
        sum == left + right,
{
    left + right
}

} // verus!
