//! The string table that a dynamic section declares, and lookups in it.

use vstd::prelude::*;
use vstd::utf8::{decode_utf8, valid_utf8};
use crate::error::LookupError;

verus! {

/// What a lossy UTF-8 decoding of `bytes` gives: the text they encode, with
/// the replacement character in place of each ill-formed sequence.
pub uninterp spec fn lossy_text(bytes: Seq<u8>) -> Seq<char>;

/// Calls `String::from_utf8_lossy` and takes ownership of the text.
///
/// Trusted: the text depends on the bytes alone, and bytes that are
/// well-formed UTF-8 decode to exactly the text they encode.
#[verifier::external_body]
fn decode_lossy(bytes: &[u8]) -> (text: String)
    ensures
        text@ == lossy_text(bytes@),
        valid_utf8(bytes@) ==> text@ == decode_utf8(bytes@),
{
    String::from_utf8_lossy(bytes).into_owned()
}

/// Calls `object::StringTable::get` on the table that
/// `object::StringTable::new` makes of `data`, `start` and `end`.
///
/// Trusted: the lookup succeeds exactly when the table ends inside the
/// buffer and a zero byte lies at or after `start + offset` and before
/// `end`; it then returns the bytes from `start + offset` up to the first
/// such zero byte, which is left out.
#[verifier::external_body]
fn table_get<'a>(data: &'a [u8], start: u64, end: u64, offset: u32) -> (found: Option<&'a [u8]>)
    ensures
        match found {
            Some(bytes) => {
                &&& start + offset + bytes@.len() < end <= data@.len()
                &&& bytes@ == data@.subrange(start + offset, start + offset + bytes@.len())
                &&& data@[start + offset + bytes@.len()] == 0
                &&& forall|i: int| 0 <= i < bytes@.len() ==> bytes@[i] != 0
            },
            None => end > data@.len() || forall|i: int|
                start + offset <= i < end ==> data@[i] != 0,
        },
{
    object::StringTable::new(data, start, end).get(offset).ok()
}

/// Position of the first zero byte of `data` in `from..end`, if there is one.
pub open spec fn terminator_at(data: Seq<u8>, from: int, end: int) -> Option<int>
    decreases end - from,
{
    if from >= end {
        None
    } else if data[from] == 0 {
        Some(from)
    } else {
        terminator_at(data, from + 1, end)
    }
}

/// The bytes of the name at `offset` in the table `start..end` of `data`:
/// those from `start + offset` up to the first zero byte before `end`.
pub open spec fn name_bytes(data: Seq<u8>, start: nat, end: nat, offset: nat) -> Result<
    Seq<u8>,
    LookupError,
> {
    match terminator_at(data, (start + offset) as int, end as int) {
        Some(stop) => Ok(data.subrange((start + offset) as int, stop)),
        None => Err(LookupError::OutOfRange),
    }
}

/// The name at `offset` in the table `start..end` of `data`, decoded lossily.
pub open spec fn resolve_spec(data: Seq<u8>, start: nat, end: nat, offset: nat) -> Result<
    Seq<char>,
    LookupError,
> {
    match name_bytes(data, start, end, offset) {
        Ok(bytes) => Ok(lossy_text(bytes)),
        Err(e) => Err(e),
    }
}

/// The table that a dynamic section declares in a buffer of `len` bytes.
/// Where the start or the size is missing, or the table would not end inside
/// the buffer, the table is empty, and every lookup in it fails.
pub open spec fn table_bounds(len: nat, strtab: Option<u64>, strsz: Option<u64>) -> (nat, nat) {
    match (strtab, strsz) {
        (Some(start), Some(size)) => if start + size <= len {
            (start as nat, (start + size) as nat)
        } else {
            (0, 0)
        },
        _ => (0, 0),
    }
}

/// `terminator_at` finds the least position in `from..end` that holds a zero
/// byte, and finds none exactly when the range holds none.
pub proof fn lemma_terminator_at(data: Seq<u8>, from: int, end: int)
    ensures
        match terminator_at(data, from, end) {
            Some(stop) => {
                &&& from <= stop < end
                &&& data[stop] == 0
                &&& forall|i: int| from <= i < stop ==> data[i] != 0
            },
            None => forall|i: int| from <= i < end ==> data[i] != 0,
        },
    decreases end - from,
{
    if from < end && data[from] != 0 {
        lemma_terminator_at(data, from + 1, end);
    }
}

/// A lookup whose position lies at or past the end of the table fails.
pub proof fn lemma_lookup_past_end_fails(data: Seq<u8>, start: nat, end: nat, offset: nat)
    requires
        start + offset >= end,
    ensures
        name_bytes(data, start, end, offset) == Err::<Seq<u8>, LookupError>(
            LookupError::OutOfRange,
        ),
        resolve_spec(data, start, end, offset) == Err::<Seq<char>, LookupError>(
            LookupError::OutOfRange,
        ),
{
}

/// A lookup that succeeds returns bytes that lie inside the table, hold no
/// zero byte and are followed by one.
pub proof fn lemma_lookup_inside_table(data: Seq<u8>, start: nat, end: nat, offset: nat)
    requires
        end <= data.len(),
    ensures
        name_bytes(data, start, end, offset) matches Ok(bytes) ==> {
            &&& start + offset + bytes.len() < end
            &&& bytes == data.subrange(
                (start + offset) as int,
                (start + offset + bytes.len()) as int,
            )
            &&& data[(start + offset + bytes.len()) as int] == 0
            &&& forall|i: int| 0 <= i < bytes.len() ==> bytes[i] != 0
        },
{
    lemma_terminator_at(data, (start + offset) as int, end as int);
}

/// A region of a buffer that holds zero-terminated strings.
pub struct StringTableView<'a> {
    data: &'a [u8],
    start: usize,
    end: usize,
}

impl<'a> StringTableView<'a> {
    #[verifier::type_invariant]
    spec fn inside_buffer(self) -> bool {
        self.start <= self.end <= self.data@.len()
    }

    /// The buffer that the table lies in.
    pub closed spec fn buffer(self) -> Seq<u8> {
        self.data@
    }

    /// Offset in the buffer at which the table starts.
    pub closed spec fn start(self) -> nat {
        self.start as nat
    }

    /// Offset in the buffer at which the table ends.
    pub closed spec fn end(self) -> nat {
        self.end as nat
    }

    /// Where the table starts and ends. A table starts no later than it
    /// ends, and ends inside its buffer.
    pub fn bounds(&self) -> (bounds: (usize, usize))
        ensures
            bounds.0 == self.start(),
            bounds.1 == self.end(),
            bounds.0 <= bounds.1 <= self.buffer().len(),
    {
        proof {
            use_type_invariant(self);
        }
        (self.start, self.end)
    }

    /// The table that the dynamic section of `data` declares by the values of
    /// its string-table-start and string-table-size entries.
    pub fn new(data: &'a [u8], strtab: Option<u64>, strsz: Option<u64>) -> (table: Self)
        ensures
            table.buffer() == data@,
            (table.start(), table.end()) == table_bounds(data@.len(), strtab, strsz),
    {
        let len: u64 = data.len() as u64;
        match (strtab, strsz) {
            (Some(start), Some(size)) => {
                if size <= len && start <= len - size {
                    StringTableView { data, start: start as usize, end: (start + size) as usize }
                } else {
                    StringTableView { data, start: 0, end: 0 }
                }
            },
            _ => StringTableView { data, start: 0, end: 0 },
        }
    }

    /// The bytes of the name at `offset`, without the terminator.
    pub fn name_at(&self, offset: u32) -> (result: Result<&'a [u8], LookupError>)
        ensures
            match result {
                Ok(bytes) => name_bytes(self.buffer(), self.start(), self.end(), offset as nat)
                    == Ok::<Seq<u8>, LookupError>(bytes@),
                Err(e) => name_bytes(self.buffer(), self.start(), self.end(), offset as nat)
                    == Err::<Seq<u8>, LookupError>(e),
            },
    {
        proof {
            use_type_invariant(self);
            lemma_terminator_at(self.data@, self.start + offset, self.end as int);
        }
        match table_get(self.data, self.start as u64, self.end as u64, offset) {
            Some(bytes) => {
                proof {
                    let at = self.start + offset;
                    assert forall|i: int| at <= i < at + bytes@.len() implies self.data@[i]
                        != 0 by {
                        assert(self.data@[i] == bytes@[i - at]);
                    }
                    assert(terminator_at(self.data@, at, self.end as int) == Some(
                        at + bytes@.len(),
                    ));
                }
                Ok(bytes)
            },
            None => Err(LookupError::OutOfRange),
        }
    }

    /// The name at `offset`: the bytes from there up to the first zero byte
    /// inside the table, decoded as UTF-8 with the replacement character in
    /// place of each ill-formed sequence.
    ///
    /// Fails with `OutOfRange` when `offset` leads to or past the end of the
    /// table, or when no zero byte follows inside the table. A name whose
    /// bytes are well-formed UTF-8 is returned as exactly the text they
    /// encode.
    pub fn resolve(&self, offset: u32) -> (result: Result<String, LookupError>)
        ensures
            match result {
                Ok(name) => resolve_spec(self.buffer(), self.start(), self.end(), offset as nat)
                    == Ok::<Seq<char>, LookupError>(name@),
                Err(e) => resolve_spec(self.buffer(), self.start(), self.end(), offset as nat)
                    == Err::<Seq<char>, LookupError>(e),
            },
            match (result, name_bytes(self.buffer(), self.start(), self.end(), offset as nat)) {
                (Ok(name), Ok(bytes)) => valid_utf8(bytes) ==> name@ == decode_utf8(bytes),
                _ => true,
            },
    {
        match self.name_at(offset) {
            Ok(bytes) => Ok(decode_lossy(bytes)),
            Err(e) => Err(e),
        }
    }
}

} // verus!
