//! Classifies a buffer by its identification bytes.

use vstd::prelude::*;

verus! {

/// What the identification bytes of a buffer say it is.
#[derive(Clone, Copy, Debug, PartialEq, Eq, Structural)]
pub enum FileClass {
    /// A 32-bit ELF object.
    Elf32,
    /// A 64-bit ELF object.
    Elf64,
    /// Anything else, a truncated identification included.
    NotElf,
}

/// Word size of an ELF object, which fixes the layout of its structures.
#[derive(Clone, Copy, Debug, PartialEq, Eq, Structural)]
pub enum WordSize {
    /// 32-bit structures.
    Bits32,
    /// 64-bit structures.
    Bits64,
}

/// Number of identification bytes at the start of every ELF object.
pub const IDENT_SIZE: usize = 16;

/// `data` holds a whole identification that starts with the ELF magic number.
pub open spec fn has_elf_magic(data: Seq<u8>) -> bool {
    &&& data.len() >= IDENT_SIZE
    &&& data[0] == 0x7f
    &&& data[1] == 0x45
    &&& data[2] == 0x4c
    &&& data[3] == 0x46
}

/// The class that the identification bytes of `data` declare.
pub open spec fn class_of(data: Seq<u8>) -> FileClass {
    if has_elf_magic(data) && data[4] == 1 {
        FileClass::Elf32
    } else if has_elf_magic(data) && data[4] == 2 {
        FileClass::Elf64
    } else {
        FileClass::NotElf
    }
}

/// Calls `object::FileKind::parse`.
///
/// Trusted: that function reads the first sixteen bytes, fails when there are
/// fewer, and reports a 32-bit or 64-bit ELF file exactly when the first four
/// are `0x7f 'E' 'L' 'F'` and the fifth is 1 or 2. Every other kind it knows,
/// and every failure, is mapped to `NotElf` here.
#[verifier::external_body]
fn file_kind(data: &[u8]) -> (class: FileClass)
    ensures
        class == class_of(data@),
{
    match object::FileKind::parse(data) {
        Ok(object::FileKind::Elf32) => FileClass::Elf32,
        Ok(object::FileKind::Elf64) => FileClass::Elf64,
        _ => FileClass::NotElf,
    }
}

/// Classifies `data` by its magic number and class byte alone. A buffer that
/// is shorter than the identification, or lacks the magic number, is `NotElf`.
pub fn classify(data: &[u8]) -> (class: FileClass)
    ensures
        class == class_of(data@),
        data@.len() < IDENT_SIZE ==> class == FileClass::NotElf,
{
    file_kind(data)
}

} // verus!
