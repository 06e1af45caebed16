//! From the bytes of a file to the names of the libraries it needs.

use vstd::prelude::*;
use crate::dynamic::{
    decode_entries, decode_entries_spec, last_value, needed_offsets, summarize, DynamicSummary,
    DT_STRSZ, DT_STRTAB,
};
use crate::error::HandleError;
use crate::header::{decode_header, decode_header_spec, Header, RawObject};
use crate::section::{
    find_dynamic_section, find_dynamic_spec, lemma_no_dynamic_type_no_section, section_type,
    SHT_DYNAMIC,
};
use crate::sniff::{class_of, classify, has_elf_magic, FileClass};
use crate::strtab::{lossy_text, name_bytes, table_bounds, StringTableView};

verus! {

/// A needed-library entry that gave no name. The other entries of the same
/// object are not affected.
#[derive(Clone, Copy, Debug, PartialEq, Eq, Structural)]
pub enum SkippedEntry {
    /// The entry's value does not fit the 32 bits of a string-table offset.
    OffsetTooWide(u64),
    /// No name lies at this offset of the string table.
    Unresolved(u32),
}

/// What one object yields: the names it needs and the entries passed over.
#[derive(Debug)]
pub struct Extraction {
    /// Names of the needed libraries, in entry order, duplicates kept.
    pub libs: Vec<String>,
    /// The needed-library entries that gave no name, in entry order.
    pub skipped: Vec<SkippedEntry>,
}

/// The mathematical content of an [`Extraction`].
pub struct ExtractionView {
    pub libs: Seq<Seq<char>>,
    pub skipped: Seq<SkippedEntry>,
}

/// The texts of a sequence of strings.
pub open spec fn texts(strings: Seq<String>) -> Seq<Seq<char>> {
    strings.map_values(|s: String| s@)
}

impl View for Extraction {
    type V = ExtractionView;

    open spec fn view(&self) -> ExtractionView {
        ExtractionView { libs: texts(self.libs@), skipped: self.skipped@ }
    }
}

/// What one needed-library entry with value `offset` gives against the
/// table `start..end` of `data`: a name, or the reason it is passed over.
pub open spec fn entry_outcome(data: Seq<u8>, start: nat, end: nat, offset: u64) -> Result<
    Seq<char>,
    SkippedEntry,
> {
    if offset > u32::MAX {
        Err(SkippedEntry::OffsetTooWide(offset))
    } else {
        match name_bytes(data, start, end, offset as nat) {
            Ok(bytes) => Ok(lossy_text(bytes)),
            Err(_) => Err(SkippedEntry::Unresolved(offset as u32)),
        }
    }
}

/// The name that an entry gives, if it gives one.
pub open spec fn entry_name(data: Seq<u8>, start: nat, end: nat, offset: u64) -> Option<
    Seq<char>,
> {
    match entry_outcome(data, start, end, offset) {
        Ok(name) => Some(name),
        Err(_) => None,
    }
}

/// The reason an entry is passed over, if it is.
pub open spec fn entry_skip(data: Seq<u8>, start: nat, end: nat, offset: u64) -> Option<
    SkippedEntry,
> {
    match entry_outcome(data, start, end, offset) {
        Ok(_) => None,
        Err(skip) => Some(skip),
    }
}

/// What resolving `offsets`, in order, against the table `start..end` gives.
pub open spec fn resolve_all_spec(data: Seq<u8>, start: nat, end: nat, offsets: Seq<u64>) -> ExtractionView {
    ExtractionView {
        libs: offsets.filter_map(|offset: u64| entry_name(data, start, end, offset)),
        skipped: offsets.filter_map(|offset: u64| entry_skip(data, start, end, offset)),
    }
}

/// What the dynamic section `section` of the buffer `data` yields.
pub open spec fn section_yield(data: Seq<u8>, section: Seq<u8>, header: Header) -> ExtractionView {
    let entries = decode_entries_spec(section, header.word, header.order);
    let bounds = table_bounds(
        data.len(),
        last_value(entries, DT_STRTAB),
        last_value(entries, DT_STRSZ),
    );
    resolve_all_spec(data, bounds.0, bounds.1, needed_offsets(entries))
}

/// What `extract_libs` gives for a buffer and its decoded header.
pub open spec fn extract_libs_spec(data: Seq<u8>, header: Header) -> Result<
    ExtractionView,
    HandleError,
> {
    match find_dynamic_spec(data, header) {
        Ok(section) => Ok(section_yield(data, section, header)),
        Err(e) => Err(e),
    }
}

/// What `get_needed_libs` gives for a buffer.
pub open spec fn get_needed_libs_spec(data: Seq<u8>) -> Result<ExtractionView, HandleError> {
    match decode_header_spec(data, class_of(data)) {
        Ok(header) => extract_libs_spec(data, header),
        Err(e) => Err(e),
    }
}

/// Every needed-library entry gives a name or is recorded as skipped.
pub proof fn lemma_named_or_skipped(data: Seq<u8>, start: nat, end: nat, offsets: Seq<u64>)
    ensures
        resolve_all_spec(data, start, end, offsets).libs.len() + resolve_all_spec(
            data,
            start,
            end,
            offsets,
        ).skipped.len() == offsets.len(),
    decreases offsets.len(),
{
    if offsets.len() > 0 {
        lemma_named_or_skipped(data, start, end, offsets.drop_last());
    }
}

/// Where every needed-library entry points at a name, there are exactly as
/// many names as entries, the name at each place is the one its entry points
/// at, and nothing is skipped. Entries with the same offset give the same
/// name, each at its own place.
pub proof fn lemma_all_resolved(data: Seq<u8>, start: nat, end: nat, offsets: Seq<u64>)
    requires
        forall|i: int|
            0 <= i < offsets.len() ==> entry_outcome(data, start, end, offsets[i]) is Ok,
    ensures
        resolve_all_spec(data, start, end, offsets).libs.len() == offsets.len(),
        resolve_all_spec(data, start, end, offsets).skipped.len() == 0,
        forall|i: int|
            0 <= i < offsets.len() ==> entry_outcome(data, start, end, offsets[i]) == Ok::<
                Seq<char>,
                SkippedEntry,
            >(#[trigger] resolve_all_spec(data, start, end, offsets).libs[i]),
        forall|i: int, j: int|
            0 <= i < offsets.len() && 0 <= j < offsets.len() && offsets[i] == offsets[j]
                ==> resolve_all_spec(data, start, end, offsets).libs[i] == resolve_all_spec(
                data,
                start,
                end,
                offsets,
            ).libs[j],
    decreases offsets.len(),
{
    if offsets.len() > 0 {
        let front = offsets.drop_last();
        assert forall|i: int| 0 <= i < front.len() implies entry_outcome(
            data,
            start,
            end,
            front[i],
        ) is Ok by {
            assert(front[i] == offsets[i]);
        }
        lemma_all_resolved(data, start, end, front);
        let found = resolve_all_spec(data, start, end, offsets);
        let before = resolve_all_spec(data, start, end, front);
        assert(entry_outcome(data, start, end, offsets.last()) is Ok);
        assert forall|i: int| 0 <= i < offsets.len() implies entry_outcome(
            data,
            start,
            end,
            offsets[i],
        ) == Ok::<Seq<char>, SkippedEntry>(#[trigger] found.libs[i]) by {
            if i < front.len() {
                assert(front[i] == offsets[i]);
                assert(found.libs[i] == before.libs[i]);
            }
        }
    }
}

/// A needed-library entry whose offset leads to the end of the string table
/// or past it gives no name and is recorded as unresolved.
pub proof fn lemma_entry_past_table_end(data: Seq<u8>, start: nat, end: nat, offset: u64)
    requires
        offset <= u32::MAX,
        start + offset >= end,
    ensures
        entry_outcome(data, start, end, offset) == Err::<Seq<char>, SkippedEntry>(
            SkippedEntry::Unresolved(offset as u32),
        ),
{
}

/// A buffer that does not start with a whole identification bearing the ELF
/// magic number and one of the two classes is rejected as not an object.
pub proof fn lemma_wrong_magic_rejected(data: Seq<u8>)
    requires
        !has_elf_magic(data) || (data[4] != 1 && data[4] != 2),
    ensures
        class_of(data) == FileClass::NotElf,
        get_needed_libs_spec(data) == Err::<ExtractionView, HandleError>(
            HandleError::NotObjectFormat,
        ),
{
}

/// An object with a well-formed header none of whose sections has the
/// dynamic type yields `NoDynamicSection`, whatever else it holds.
pub proof fn lemma_static_object(data: Seq<u8>, header: Header)
    requires
        decode_header_spec(data, class_of(data)) == Ok::<Header, HandleError>(header),
        forall|j: int| 0 <= j < header.shnum ==> section_type(data, header, j) != SHT_DYNAMIC,
    ensures
        get_needed_libs_spec(data) == Err::<ExtractionView, HandleError>(
            HandleError::NoDynamicSection,
        ),
{
    lemma_no_dynamic_type_no_section(data, header);
}

/// An object all of whose needed-library entries point at names yields as
/// many names as it has such entries before the terminator, in entry order.
pub proof fn lemma_object_names_every_needed_entry(data: Seq<u8>, header: Header, section: Seq<u8>)
    requires
        decode_header_spec(data, class_of(data)) == Ok::<Header, HandleError>(header),
        find_dynamic_spec(data, header) == Ok::<Seq<u8>, HandleError>(section),
        ({
            let entries = decode_entries_spec(section, header.word, header.order);
            let bounds = table_bounds(
                data.len(),
                last_value(entries, DT_STRTAB),
                last_value(entries, DT_STRSZ),
            );
            forall|i: int|
                0 <= i < needed_offsets(entries).len() ==> entry_outcome(
                    data,
                    bounds.0,
                    bounds.1,
                    needed_offsets(entries)[i],
                ) is Ok
        }),
    ensures
        ({
            let entries = decode_entries_spec(section, header.word, header.order);
            let bounds = table_bounds(
                data.len(),
                last_value(entries, DT_STRTAB),
                last_value(entries, DT_STRSZ),
            );
            &&& get_needed_libs_spec(data) matches Ok(found)
            &&& found.libs.len() == needed_offsets(entries).len()
            &&& found.skipped.len() == 0
            &&& forall|i: int|
                0 <= i < needed_offsets(entries).len() ==> entry_outcome(
                    data,
                    bounds.0,
                    bounds.1,
                    needed_offsets(entries)[i],
                ) == Ok::<Seq<char>, SkippedEntry>(#[trigger] found.libs[i])
        }),
{
    let entries = decode_entries_spec(section, header.word, header.order);
    let bounds = table_bounds(
        data.len(),
        last_value(entries, DT_STRTAB),
        last_value(entries, DT_STRSZ),
    );
    lemma_all_resolved(data, bounds.0, bounds.1, needed_offsets(entries));
}

proof fn lemma_texts_push(strings: Seq<String>, last: String)
    ensures
        texts(strings.push(last)) == texts(strings).push(last@),
{
    assert(texts(strings.push(last)) =~= texts(strings).push(last@));
}

/// Resolves the needed offsets of a dynamic section, in order, against its
/// string table. An offset that is too wide for the table, or at which no
/// name lies, is recorded as skipped; the offsets after it are still resolved.
pub fn resolve_all(table: &StringTableView, offsets: &Vec<u64>) -> (found: Extraction)
    ensures
        found@ == resolve_all_spec(table.buffer(), table.start(), table.end(), offsets@),
{
    let ghost data = table.buffer();
    let ghost start = table.start();
    let ghost end = table.end();
    let ghost name_of = |offset: u64| entry_name(data, start, end, offset);
    let ghost skip_of = |offset: u64| entry_skip(data, start, end, offset);
    let mut libs: Vec<String> = Vec::new();
    let mut skipped: Vec<SkippedEntry> = Vec::new();
    let mut index: usize = 0;
    proof {
        assert(offsets@.take(0) =~= Seq::<u64>::empty());
        assert(texts(libs@) =~= Seq::<Seq<char>>::empty());
    }
    while index < offsets.len()
        invariant
            index <= offsets@.len(),
            data == table.buffer(),
            start == table.start(),
            end == table.end(),
            name_of == (|offset: u64| entry_name(data, start, end, offset)),
            skip_of == (|offset: u64| entry_skip(data, start, end, offset)),
            texts(libs@) == offsets@.take(index as int).filter_map(name_of),
            skipped@ == offsets@.take(index as int).filter_map(skip_of),
        decreases offsets@.len() - index,
    {
        let offset: u64 = offsets[index];
        proof {
            offsets@.lemma_filter_map_take_succ(name_of, index as int);
            offsets@.lemma_filter_map_take_succ(skip_of, index as int);
        }
        if offset > u32::MAX as u64 {
            skipped.push(SkippedEntry::OffsetTooWide(offset));
        } else {
            let narrow: u32 = offset as u32;
            match table.resolve(narrow) {
                Ok(name) => {
                    proof {
                        lemma_texts_push(libs@, name);
                    }
                    libs.push(name);
                },
                Err(_) => {
                    skipped.push(SkippedEntry::Unresolved(narrow));
                },
            }
        }
        index = index + 1;
    }
    proof {
        assert(offsets@.take(index as int) =~= offsets@);
    }
    Extraction { libs, skipped }
}

/// Reads the names of the needed libraries from an object.
///
/// Fails with `NoDynamicSection` where the object has no dynamic section,
/// and with `MalformedHeader` where that section does not lie inside the
/// buffer. Otherwise every needed-library entry before the terminator is
/// resolved in turn, and a single entry that cannot be resolved does not
/// affect the others.
pub fn extract_libs(object: &RawObject) -> (result: Result<Extraction, HandleError>)
    ensures
        match result {
            Ok(found) => extract_libs_spec(object.buffer(), object.header_spec()) == Ok::<
                ExtractionView,
                HandleError,
            >(found@),
            Err(e) => extract_libs_spec(object.buffer(), object.header_spec()) == Err::<
                ExtractionView,
                HandleError,
            >(e),
        },
{
    let section = match find_dynamic_section(object) {
        Ok(section) => section,
        Err(e) => {
            return Err(e);
        },
    };
    let header: Header = object.header();
    let entries = decode_entries(section, header.word, header.order);
    let summary: DynamicSummary = summarize(&entries);
    let table = StringTableView::new(object.data(), summary.strtab, summary.strsz);
    Ok(resolve_all(&table, &summary.needed))
}

/// Reads the names of the libraries that the object in `data` needs.
///
/// The buffer is classified by its identification bytes first; the header is
/// decoded only if they are those of an ELF object.
pub fn get_needed_libs(data: &[u8]) -> (result: Result<Extraction, HandleError>)
    ensures
        match result {
            Ok(found) => get_needed_libs_spec(data@) == Ok::<ExtractionView, HandleError>(found@),
            Err(e) => get_needed_libs_spec(data@) == Err::<ExtractionView, HandleError>(e),
        },
        class_of(data@) == FileClass::NotElf ==> result matches Err(HandleError::NotObjectFormat),
{
    let class = classify(data);
    let object = match decode_header(data, class) {
        Ok(object) => object,
        Err(e) => {
            return Err(e);
        },
    };
    extract_libs(&object)
}

} // verus!
