//! Walks the section header table to the dynamic section.

use vstd::prelude::*;
use vstd::slice::slice_subrange;
use crate::error::HandleError;
use crate::header::{section_entry_size, Header, RawObject};
use crate::sniff::WordSize;
use crate::wire::{field, lemma_field_bound, lemma_radix_pow_values, read_uint};

verus! {

/// Section type of the section that holds dynamic-linking information.
pub const SHT_DYNAMIC: u64 = 6;

/// File offset of section header number `index`.
pub open spec fn entry_at(header: Header, index: int) -> int {
    header.shoff + index * header.shentsize
}

/// The type field of section header number `index`.
pub open spec fn section_type(data: Seq<u8>, header: Header, index: int) -> nat {
    field(data, entry_at(header, index) + 4, 4, header.order)
}

/// The file offset that section header number `index` gives for its section.
pub open spec fn section_offset(data: Seq<u8>, header: Header, index: int) -> nat {
    match header.word {
        WordSize::Bits64 => field(data, entry_at(header, index) + 24, 8, header.order),
        WordSize::Bits32 => field(data, entry_at(header, index) + 16, 4, header.order),
    }
}

/// The size that section header number `index` gives for its section.
pub open spec fn section_size(data: Seq<u8>, header: Header, index: int) -> nat {
    match header.word {
        WordSize::Bits64 => field(data, entry_at(header, index) + 32, 8, header.order),
        WordSize::Bits32 => field(data, entry_at(header, index) + 20, 4, header.order),
    }
}

/// Index of the first dynamic section at or after `from`, if there is one.
pub open spec fn dynamic_from(data: Seq<u8>, header: Header, from: int) -> Option<int>
    decreases header.shnum - from,
{
    if from < 0 || from >= header.shnum {
        None
    } else if section_type(data, header, from) == SHT_DYNAMIC {
        Some(from)
    } else {
        dynamic_from(data, header, from + 1)
    }
}

/// What looking for the dynamic section of `data` gives: the bytes of the
/// first section of that type, `NoDynamicSection` where no section has it,
/// `MalformedHeader` where that section does not lie inside the buffer.
pub open spec fn find_dynamic_spec(data: Seq<u8>, header: Header) -> Result<Seq<u8>, HandleError> {
    match dynamic_from(data, header, 0) {
        None => Err(HandleError::NoDynamicSection),
        Some(index) => {
            let offset = section_offset(data, header, index);
            let size = section_size(data, header, index);
            if offset + size <= data.len() {
                Ok(data.subrange(offset as int, (offset + size) as int))
            } else {
                Err(HandleError::MalformedHeader)
            }
        },
    }
}

/// `dynamic_from` finds the least index at or after `from` whose section has
/// the dynamic type, and finds none exactly when there is no such index.
pub proof fn lemma_dynamic_from_is_first(data: Seq<u8>, header: Header, from: int)
    requires
        0 <= from,
    ensures
        match dynamic_from(data, header, from) {
            Some(index) => {
                &&& from <= index < header.shnum
                &&& section_type(data, header, index) == SHT_DYNAMIC
                &&& forall|j: int| from <= j < index ==> section_type(data, header, j) != SHT_DYNAMIC
            },
            None => forall|j: int|
                from <= j < header.shnum ==> section_type(data, header, j) != SHT_DYNAMIC,
        },
    decreases header.shnum - from,
{
    if from < header.shnum && section_type(data, header, from) != SHT_DYNAMIC {
        lemma_dynamic_from_is_first(data, header, from + 1);
    }
}

/// An object none of whose sections has the dynamic type has no dynamic
/// section, however many sections it has.
pub proof fn lemma_no_dynamic_type_no_section(data: Seq<u8>, header: Header)
    requires
        forall|j: int| 0 <= j < header.shnum ==> section_type(data, header, j) != SHT_DYNAMIC,
    ensures
        find_dynamic_spec(data, header) == Err::<Seq<u8>, HandleError>(
            HandleError::NoDynamicSection,
        ),
{
    lemma_dynamic_from_is_first(data, header, 0);
}

proof fn lemma_entry_inside(header: Header, index: int, len: nat)
    requires
        header.fits(len),
        0 <= index < header.shnum,
    ensures
        0 <= entry_at(header, index),
        entry_at(header, index) + section_entry_size(header.word) <= len,
{
    let size = header.shentsize as int;
    let count = header.shnum as int;
    assert(0 <= index * size) by (nonlinear_arith)
        requires
            0 <= index,
            0 <= size,
    ;
    assert((index + 1) * size <= count * size) by (nonlinear_arith)
        requires
            index + 1 <= count,
            0 <= size,
    ;
    assert((index + 1) * size == index * size + size) by (nonlinear_arith);
}

/// Finds the dynamic section of an object and returns its bytes.
///
/// The walk visits the section headers in table order, as many as the header
/// announces, and stops at the first of dynamic type. An object without such
/// a section gives `NoDynamicSection`; one whose dynamic section does not
/// lie inside the buffer gives `MalformedHeader`.
pub fn find_dynamic_section<'a>(object: &RawObject<'a>) -> (result: Result<&'a [u8], HandleError>)
    ensures
        match result {
            Ok(bytes) => find_dynamic_spec(object.buffer(), object.header_spec()) == Ok::<
                Seq<u8>,
                HandleError,
            >(bytes@),
            Err(e) => find_dynamic_spec(object.buffer(), object.header_spec()) == Err::<
                Seq<u8>,
                HandleError,
            >(e),
        },
{
    let data: &'a [u8] = object.data();
    let header: Header = object.header();
    let wide: bool = match header.word {
        WordSize::Bits64 => true,
        WordSize::Bits32 => false,
    };
    let len: usize = data.len();
    let count: usize = header.shnum as usize;
    let step: usize = header.shentsize as usize;
    let mut index: usize = 0;
    while index < count
        invariant
            index <= count == header.shnum,
            step == header.shentsize,
            len == data@.len(),
            data@ == object.buffer(),
            header == object.header_spec(),
            header.fits(data@.len()),
            wide == (header.word == WordSize::Bits64),
            dynamic_from(data@, header, 0) == dynamic_from(data@, header, index as int),
        decreases count - index,
    {
        proof {
            lemma_entry_inside(header, index as int, data@.len());
            assert(index * step <= 0xffff * 0xffff) by (nonlinear_arith)
                requires
                    index <= 0xffff,
                    step <= 0xffff,
            ;
        }
        let at: usize = header.shoff as usize + index * step;
        let kind: u64 = read_uint(data, at + 4, 4, header.order);
        if kind == SHT_DYNAMIC {
            proof {
                lemma_radix_pow_values();
                if wide {
                    lemma_field_bound(data@, at + 24, 8, header.order);
                    lemma_field_bound(data@, at + 32, 8, header.order);
                } else {
                    lemma_field_bound(data@, at + 16, 4, header.order);
                    lemma_field_bound(data@, at + 20, 4, header.order);
                }
            }
            let offset: u64 = if wide {
                read_uint(data, at + 24, 8, header.order)
            } else {
                read_uint(data, at + 16, 4, header.order)
            };
            let size: u64 = if wide {
                read_uint(data, at + 32, 8, header.order)
            } else {
                read_uint(data, at + 20, 4, header.order)
            };
            let bound: u64 = len as u64;
            if size > bound || offset > bound - size {
                return Err(HandleError::MalformedHeader);
            }
            let bytes = slice_subrange(data, offset as usize, offset as usize + size as usize);
            return Ok(bytes);
        }
        index = index + 1;
    }
    Err(HandleError::NoDynamicSection)
}

} // verus!
