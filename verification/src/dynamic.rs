//! Decodes the entries of a dynamic section and picks out what names the
//! libraries the object needs.

use vstd::prelude::*;
use crate::sniff::WordSize;
use crate::wire::{field, lemma_field_bound, lemma_radix_pow_values, read_uint, ByteOrder};

verus! {

/// Tag of the entry that ends a dynamic section.
pub const DT_NULL: u64 = 0;

/// Tag of an entry whose value is the string-table offset of a needed library.
pub const DT_NEEDED: u64 = 1;

/// Tag of the entry whose value is the start of the string table.
pub const DT_STRTAB: u64 = 5;

/// Tag of the entry whose value is the size of the string table.
pub const DT_STRSZ: u64 = 10;

/// One entry of a dynamic section, widened to 64 bits whatever the class.
#[derive(Clone, Copy, Debug, PartialEq, Eq, Structural)]
pub struct DynamicEntry {
    pub tag: u64,
    pub value: u64,
}

/// The tags this library acts on, and one variant for all the others.
#[derive(Clone, Copy, Debug, PartialEq, Eq, Structural)]
pub enum DynTag {
    /// Ends the section.
    Null,
    /// Names a needed library.
    Needed,
    /// Gives the start of the string table.
    StrTab,
    /// Gives the size of the string table.
    StrSz,
    /// Any other tag.
    Other,
}

/// The kind of a raw tag.
pub open spec fn tag_kind(tag: u64) -> DynTag {
    if tag == DT_NULL {
        DynTag::Null
    } else if tag == DT_NEEDED {
        DynTag::Needed
    } else if tag == DT_STRTAB {
        DynTag::StrTab
    } else if tag == DT_STRSZ {
        DynTag::StrSz
    } else {
        DynTag::Other
    }
}

impl DynamicEntry {
    /// The kind of this entry's tag.
    pub open spec fn kind_spec(self) -> DynTag {
        tag_kind(self.tag)
    }

    /// The kind of this entry's tag.
    pub fn kind(&self) -> (kind: DynTag)
        ensures
            kind == self.kind_spec(),
    {
        if self.tag == DT_NULL {
            DynTag::Null
        } else if self.tag == DT_NEEDED {
            DynTag::Needed
        } else if self.tag == DT_STRTAB {
            DynTag::StrTab
        } else if self.tag == DT_STRSZ {
            DynTag::StrSz
        } else {
            DynTag::Other
        }
    }
}

/// Size of one dynamic entry: a tag and a value of one word each.
pub open spec fn entry_size(word: WordSize) -> nat {
    match word {
        WordSize::Bits32 => 8,
        WordSize::Bits64 => 16,
    }
}

/// The entry that lies at position `index` of the section bytes.
pub open spec fn raw_entry(bytes: Seq<u8>, word: WordSize, order: ByteOrder, index: int) -> DynamicEntry {
    match word {
        WordSize::Bits32 => DynamicEntry {
            tag: field(bytes, index * 8, 4, order) as u64,
            value: field(bytes, index * 8 + 4, 4, order) as u64,
        },
        WordSize::Bits64 => DynamicEntry {
            tag: field(bytes, index * 16, 8, order) as u64,
            value: field(bytes, index * 16 + 8, 8, order) as u64,
        },
    }
}

/// All the entries that lie whole inside the section bytes. Bytes left over
/// after the last whole entry belong to none.
pub open spec fn raw_entries(bytes: Seq<u8>, word: WordSize, order: ByteOrder) -> Seq<DynamicEntry> {
    Seq::new(bytes.len() / entry_size(word), |index: int| raw_entry(bytes, word, order, index))
}

/// Position of the first terminator at or after `from`, or the length of
/// `entries` where none follows.
pub open spec fn terminator_from(entries: Seq<DynamicEntry>, from: int) -> int
    decreases entries.len() - from,
{
    if from < 0 || from >= entries.len() || entries[from].tag == DT_NULL {
        from
    } else {
        terminator_from(entries, from + 1)
    }
}

/// The entries that come before the first terminator.
pub open spec fn before_terminator(entries: Seq<DynamicEntry>) -> Seq<DynamicEntry> {
    entries.take(terminator_from(entries, 0))
}

/// What decoding a dynamic section gives: its whole entries, in order, up to
/// the first terminator or to the end of the section, whichever comes first.
pub open spec fn decode_entries_spec(bytes: Seq<u8>, word: WordSize, order: ByteOrder) -> Seq<
    DynamicEntry,
> {
    before_terminator(raw_entries(bytes, word, order))
}

/// `terminator_from` stops inside the sequence, at a terminator unless it
/// reaches the end, and passes no terminator on its way.
pub proof fn lemma_terminator_from(entries: Seq<DynamicEntry>, from: int)
    requires
        0 <= from <= entries.len(),
    ensures
        from <= terminator_from(entries, from) <= entries.len(),
        terminator_from(entries, from) < entries.len() ==> entries[terminator_from(
            entries,
            from,
        )].tag == DT_NULL,
        forall|j: int| from <= j < terminator_from(entries, from) ==> entries[j].tag != DT_NULL,
    decreases entries.len() - from,
{
    if from < entries.len() && entries[from].tag != DT_NULL {
        lemma_terminator_from(entries, from + 1);
    }
}

/// Decoding never yields a terminator, never more entries than the section
/// has room for, and yields every entry where the section holds no terminator.
pub proof fn lemma_decoded_entries(bytes: Seq<u8>, word: WordSize, order: ByteOrder)
    ensures
        decode_entries_spec(bytes, word, order).len() <= bytes.len() / entry_size(word),
        forall|j: int|
            0 <= j < decode_entries_spec(bytes, word, order).len() ==> {
                &&& #[trigger] decode_entries_spec(bytes, word, order)[j] == raw_entry(
                    bytes,
                    word,
                    order,
                    j,
                )
                &&& decode_entries_spec(bytes, word, order)[j].tag != DT_NULL
            },
        (forall|j: int|
            0 <= j < bytes.len() / entry_size(word) ==> raw_entry(bytes, word, order, j).tag
                != DT_NULL) ==> decode_entries_spec(bytes, word, order) == raw_entries(
            bytes,
            word,
            order,
        ),
{
    let all = raw_entries(bytes, word, order);
    lemma_terminator_from(all, 0);
    let stop = terminator_from(all, 0);
    if forall|j: int|
        0 <= j < bytes.len() / entry_size(word) ==> raw_entry(bytes, word, order, j).tag
            != DT_NULL {
        if stop < all.len() {
            assert(all[stop] == raw_entry(bytes, word, order, stop));
        }
        assert(all.take(stop) =~= all);
    }
}

/// Decodes the entries of a dynamic section.
///
/// Decoding stops at the first terminator entry, which is not returned, or at
/// the end of the section where it holds none. It never reads past the
/// section: bytes after the last whole entry are left alone.
pub fn decode_entries(section: &[u8], word: WordSize, order: ByteOrder) -> (entries: Vec<
    DynamicEntry,
>)
    ensures
        entries@ == decode_entries_spec(section@, word, order),
{
    let wide: bool = match word {
        WordSize::Bits32 => false,
        WordSize::Bits64 => true,
    };
    let half: usize = if wide {
        8
    } else {
        4
    };
    let step: usize = half + half;
    let len: usize = section.len();
    let count: usize = len / step;
    let ghost all = raw_entries(section@, word, order);
    let mut entries: Vec<DynamicEntry> = Vec::new();
    let mut index: usize = 0;
    while index < count
        invariant
            index <= count == all.len(),
            len == section@.len(),
            count == section@.len() / step as nat,
            step == entry_size(word),
            half + half == step,
            all == raw_entries(section@, word, order),
            entries@ == all.take(index as int),
            terminator_from(all, 0) == terminator_from(all, index as int),
        decreases count - index,
    {
        proof {
            assert(count * step <= section@.len()) by (nonlinear_arith)
                requires
                    count == section@.len() / step as nat,
                    step > 0,
            ;
            assert((index + 1) * step <= count * step) by (nonlinear_arith)
                requires
                    index + 1 <= count,
                    step > 0,
            ;
            assert((index + 1) * step == index * step + step) by (nonlinear_arith);
            assert(0 <= index * step) by (nonlinear_arith)
                requires
                    0 <= index,
                    0 < step,
            ;
        }
        let at: usize = index * step;
        proof {
            lemma_radix_pow_values();
            lemma_field_bound(section@, at as int, half as int, order);
            lemma_field_bound(section@, at + half, half as int, order);
        }
        let tag: u64 = read_uint(section, at, half, order);
        let value: u64 = read_uint(section, at + half, half, order);
        let entry = DynamicEntry { tag, value };
        assert(entry == all[index as int]);
        if tag == DT_NULL {
            return entries;
        }
        entries.push(entry);
        proof {
            assert(entries@ =~= all.take(index + 1));
        }
        index = index + 1;
    }
    entries
}

/// What a scan of the entries of a dynamic section keeps.
#[derive(Debug)]
pub struct DynamicSummary {
    /// The values of the needed-library entries, in the order and as often as
    /// the section has them.
    pub needed: Vec<u64>,
    /// The value of the last string-table-start entry, if there is one.
    pub strtab: Option<u64>,
    /// The value of the last string-table-size entry, if there is one.
    pub strsz: Option<u64>,
}

/// The value an entry contributes to the needed offsets, if any.
pub open spec fn needed_value(entry: DynamicEntry) -> Option<u64> {
    if entry.tag == DT_NEEDED {
        Some(entry.value)
    } else {
        None
    }
}

/// The values of the needed-library entries, in order, duplicates kept.
pub open spec fn needed_offsets(entries: Seq<DynamicEntry>) -> Seq<u64> {
    entries.filter_map(|entry: DynamicEntry| needed_value(entry))
}

/// The value of the last entry with the given tag, if any entry has it.
pub open spec fn last_value(entries: Seq<DynamicEntry>, tag: u64) -> Option<u64>
    decreases entries.len(),
{
    if entries.len() == 0 {
        None
    } else if entries.last().tag == tag {
        Some(entries.last().value)
    } else {
        last_value(entries.drop_last(), tag)
    }
}

/// Collects the needed offsets and the string table's declared bounds.
///
/// Needed-library entries keep their order and their duplicates. Where the
/// section gives the start or the size of the string table more than once,
/// the last entry counts. Entries with any other tag are passed over.
pub fn summarize(entries: &Vec<DynamicEntry>) -> (summary: DynamicSummary)
    ensures
        summary.needed@ == needed_offsets(entries@),
        summary.strtab == last_value(entries@, DT_STRTAB),
        summary.strsz == last_value(entries@, DT_STRSZ),
{
    let mut needed: Vec<u64> = Vec::new();
    let mut strtab: Option<u64> = None;
    let mut strsz: Option<u64> = None;
    let mut index: usize = 0;
    proof {
        assert(entries@.take(0) =~= Seq::<DynamicEntry>::empty());
    }
    while index < entries.len()
        invariant
            index <= entries@.len(),
            needed@ == needed_offsets(entries@.take(index as int)),
            strtab == last_value(entries@.take(index as int), DT_STRTAB),
            strsz == last_value(entries@.take(index as int), DT_STRSZ),
        decreases entries@.len() - index,
    {
        let entry: DynamicEntry = entries[index];
        proof {
            let next = entries@.take(index + 1);
            assert(next.drop_last() =~= entries@.take(index as int));
            assert(next.last() == entry);
            entries@.lemma_filter_map_take_succ(
                |entry: DynamicEntry| needed_value(entry),
                index as int,
            );
        }
        match entry.kind() {
            DynTag::Needed => {
                needed.push(entry.value);
            },
            DynTag::StrTab => {
                strtab = Some(entry.value);
            },
            DynTag::StrSz => {
                strsz = Some(entry.value);
            },
            _ => {},
        }
        index = index + 1;
    }
    proof {
        assert(entries@.take(index as int) =~= entries@);
    }
    DynamicSummary { needed, strtab, strsz }
}

} // verus!
