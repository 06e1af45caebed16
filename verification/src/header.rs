//! The fixed-size file header: byte order and where the section table lies.

use vstd::prelude::*;
use crate::error::HandleError;
use crate::sniff::{FileClass, WordSize};
use crate::wire::{field, lemma_field_bound, lemma_radix_pow_values, read_uint, ByteOrder};

verus! {

/// What later stages need from a file header.
#[derive(Clone, Copy, Debug, PartialEq, Eq, Structural)]
pub struct Header {
    /// Word size of the object.
    pub word: WordSize,
    /// Byte order of every multi-byte field of the object.
    pub order: ByteOrder,
    /// Offset of the section header table in the file.
    pub shoff: u64,
    /// Size of one entry of the section header table.
    pub shentsize: u16,
    /// Number of entries of the section header table.
    pub shnum: u16,
}

/// Size of the file header of an object of the given word size.
pub open spec fn header_size(word: WordSize) -> nat {
    match word {
        WordSize::Bits32 => 52,
        WordSize::Bits64 => 64,
    }
}

/// Size of the part of a section header that this library reads.
pub open spec fn section_entry_size(word: WordSize) -> nat {
    match word {
        WordSize::Bits32 => 40,
        WordSize::Bits64 => 64,
    }
}

/// The byte order that the identification declares, if it is a known one.
pub open spec fn declared_order(data: Seq<u8>) -> Option<ByteOrder> {
    if data.len() > 5 && data[5] == 1 {
        Some(ByteOrder::Little)
    } else if data.len() > 5 && data[5] == 2 {
        Some(ByteOrder::Big)
    } else {
        None
    }
}

/// The header fields as they stand at their fixed offsets in `data`.
pub open spec fn header_fields(data: Seq<u8>, word: WordSize, order: ByteOrder) -> Header {
    match word {
        WordSize::Bits64 => Header {
            word,
            order,
            shoff: field(data, 40, 8, order) as u64,
            shentsize: field(data, 58, 2, order) as u16,
            shnum: field(data, 60, 2, order) as u16,
        },
        WordSize::Bits32 => Header {
            word,
            order,
            shoff: field(data, 32, 4, order) as u64,
            shentsize: field(data, 46, 2, order) as u16,
            shnum: field(data, 48, 2, order) as u16,
        },
    }
}

impl Header {
    /// Every section header that this header announces lies inside a buffer
    /// of `len` bytes, and is large enough to hold the fields read from it.
    pub open spec fn fits(self, len: nat) -> bool {
        &&& self.shnum > 0 ==> self.shentsize >= section_entry_size(self.word)
        &&& self.shoff + self.shnum * self.shentsize <= len
    }
}

/// What decoding the header of `data` with the layout of `word` gives.
pub open spec fn decode_layout(data: Seq<u8>, word: WordSize) -> Result<Header, HandleError> {
    if data.len() < header_size(word) {
        Err(HandleError::MalformedHeader)
    } else {
        match declared_order(data) {
            None => Err(HandleError::MalformedHeader),
            Some(order) => {
                let header = header_fields(data, word, order);
                if header.fits(data.len()) {
                    Ok(header)
                } else {
                    Err(HandleError::MalformedHeader)
                }
            },
        }
    }
}

/// What decoding the header of `data` as an object of class `class` gives.
pub open spec fn decode_header_spec(data: Seq<u8>, class: FileClass) -> Result<
    Header,
    HandleError,
> {
    match class {
        FileClass::NotElf => Err(HandleError::NotObjectFormat),
        FileClass::Elf32 => decode_layout(data, WordSize::Bits32),
        FileClass::Elf64 => decode_layout(data, WordSize::Bits64),
    }
}

/// A buffer together with its decoded header. The header was validated
/// against the buffer once, when the object was made: every section header
/// that it announces lies inside the buffer.
pub struct RawObject<'a> {
    data: &'a [u8],
    header: Header,
}

impl<'a> RawObject<'a> {
    #[verifier::type_invariant]
    spec fn header_fits(self) -> bool {
        self.header.fits(self.data@.len())
    }

    /// The bytes of the object.
    pub closed spec fn buffer(self) -> Seq<u8> {
        self.data@
    }

    /// The decoded header of the object.
    pub closed spec fn header_spec(self) -> Header {
        self.header
    }

    /// The bytes of the object.
    pub fn data(&self) -> (data: &'a [u8])
        ensures
            data@ == self.buffer(),
    {
        self.data
    }

    /// The decoded header of the object, which fits the object's buffer.
    pub fn header(&self) -> (header: Header)
        ensures
            header == self.header_spec(),
            header.fits(self.buffer().len()),
    {
        proof {
            use_type_invariant(self);
        }
        self.header
    }
}

/// Decodes the file header of `data` for the class that the sniffer found.
///
/// Fails with `MalformedHeader` when the buffer is shorter than the header,
/// when the byte order is not one of the two known, or when the section
/// table that the header announces would not lie inside the buffer. The
/// bounds are validated here, once: later stages read the section table of
/// the object that is returned without testing them again.
pub fn decode_header<'a>(data: &'a [u8], class: FileClass) -> (result: Result<
    RawObject<'a>,
    HandleError,
>)
    ensures
        match result {
            Ok(object) => {
                &&& object.buffer() == data@
                &&& decode_header_spec(data@, class) == Ok::<Header, HandleError>(
                    object.header_spec(),
                )
            },
            Err(e) => decode_header_spec(data@, class) == Err::<Header, HandleError>(e),
        },
{
    let word: WordSize = match class {
        FileClass::NotElf => {
            return Err(HandleError::NotObjectFormat);
        },
        FileClass::Elf32 => WordSize::Bits32,
        FileClass::Elf64 => WordSize::Bits64,
    };
    let wide: bool = match word {
        WordSize::Bits32 => false,
        WordSize::Bits64 => true,
    };
    let size: usize = if wide {
        64
    } else {
        52
    };
    if data.len() < size {
        return Err(HandleError::MalformedHeader);
    }
    let order: ByteOrder = if data[5] == 1 {
        ByteOrder::Little
    } else if data[5] == 2 {
        ByteOrder::Big
    } else {
        return Err(HandleError::MalformedHeader);
    };
    proof {
        lemma_radix_pow_values();
        if wide {
            lemma_field_bound(data@, 40, 8, order);
            lemma_field_bound(data@, 58, 2, order);
            lemma_field_bound(data@, 60, 2, order);
        } else {
            lemma_field_bound(data@, 32, 4, order);
            lemma_field_bound(data@, 46, 2, order);
            lemma_field_bound(data@, 48, 2, order);
        }
    }
    let shoff: u64 = if wide {
        read_uint(data, 40, 8, order)
    } else {
        read_uint(data, 32, 4, order)
    };
    let shentsize: u64 = if wide {
        read_uint(data, 58, 2, order)
    } else {
        read_uint(data, 46, 2, order)
    };
    let shnum: u64 = if wide {
        read_uint(data, 60, 2, order)
    } else {
        read_uint(data, 48, 2, order)
    };
    let header = Header { word, order, shoff, shentsize: shentsize as u16, shnum: shnum as u16 };
    assert(header == header_fields(data@, word, order));
    let needed: u64 = if wide {
        64
    } else {
        40
    };
    if shnum > 0 && shentsize < needed {
        return Err(HandleError::MalformedHeader);
    }
    assert(shnum * shentsize <= 0xffff * 0xffff) by (nonlinear_arith)
        requires
            shnum <= 0xffff,
            shentsize <= 0xffff,
    ;
    let table: u64 = shnum * shentsize;
    let len: u64 = data.len() as u64;
    if table > len || shoff > len - table {
        return Err(HandleError::MalformedHeader);
    }
    Ok(RawObject { data, header })
}

} // verus!
