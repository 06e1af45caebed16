//! The reverse-dependency index: for each library, the files that need it.

use vstd::prelude::*;
use vstd::multiset::Multiset;
use crate::extract::texts;
use crate::report::{
    ascending, due_before, lemma_report_ascending, lemma_report_permutation,
    lemma_report_stable, report_order, slot_for,
};

verus! {

/// The libraries that one file needs.
#[derive(Debug)]
pub struct DependencyRecord {
    /// Name of the file.
    pub file: String,
    /// Names of the needed libraries, in entry order, duplicates kept.
    pub libs: Vec<String>,
}

/// The mathematical content of a [`DependencyRecord`].
pub struct RecordView {
    pub file: Seq<char>,
    pub libs: Seq<Seq<char>>,
}

impl View for DependencyRecord {
    type V = RecordView;

    open spec fn view(&self) -> RecordView {
        RecordView { file: self.file@, libs: texts(self.libs@) }
    }
}

/// One library and the files that need it.
#[derive(Debug)]
pub struct IndexEntry {
    /// Name of the library.
    pub library: String,
    /// Names of the files that need it, in the order in which they were
    /// added; a file that names the library twice stands here twice.
    pub dependents: Vec<String>,
}

/// The mathematical content of an [`IndexEntry`].
pub struct EntryView {
    pub library: Seq<char>,
    pub dependents: Seq<Seq<char>>,
}

impl View for IndexEntry {
    type V = EntryView;

    open spec fn view(&self) -> EntryView {
        EntryView { library: self.library@, dependents: texts(self.dependents@) }
    }
}

/// The contents of a sequence of entries.
pub open spec fn entry_views(entries: Seq<IndexEntry>) -> Seq<EntryView> {
    entries.map_values(|entry: IndexEntry| entry@)
}

/// The contents of a sequence of records.
pub open spec fn record_views(records: Seq<DependencyRecord>) -> Seq<RecordView> {
    records.map_values(|record: DependencyRecord| record@)
}

/// Position of the first entry for `library` at or after `from`, or the
/// length of `index` where there is none.
pub open spec fn library_position(index: Seq<EntryView>, library: Seq<char>, from: int) -> int
    decreases index.len() - from,
{
    if from < 0 || from >= index.len() || index[from].library == library {
        from
    } else {
        library_position(index, library, from + 1)
    }
}

/// The index after `file` was recorded as one more dependent of `library`:
/// appended to the library's entry, or to a new last entry where the library
/// had none.
pub open spec fn add_dependent_spec(index: Seq<EntryView>, library: Seq<char>, file: Seq<char>) -> Seq<
    EntryView,
> {
    let at = library_position(index, library, 0);
    if at < index.len() {
        index.update(at, EntryView { library, dependents: index[at].dependents.push(file) })
    } else {
        index.push(EntryView { library, dependents: seq![file] })
    }
}

/// The index after `file` was recorded under each of `libs`, in order.
pub open spec fn add_record_spec(index: Seq<EntryView>, file: Seq<char>, libs: Seq<Seq<char>>) -> Seq<
    EntryView,
>
    decreases libs.len(),
{
    if libs.len() == 0 {
        index
    } else {
        add_dependent_spec(add_record_spec(index, file, libs.drop_last()), libs.last(), file)
    }
}

/// The index that folding `records`, in order, into an empty index gives.
pub open spec fn aggregate_spec(records: Seq<RecordView>) -> Seq<EntryView>
    decreases records.len(),
{
    if records.len() == 0 {
        Seq::empty()
    } else {
        add_record_spec(
            aggregate_spec(records.drop_last()),
            records.last().file,
            records.last().libs,
        )
    }
}

/// `library_position` stops inside the index or at its end, at an entry for
/// the library unless it reaches the end, and passes no such entry.
pub proof fn lemma_library_position(index: Seq<EntryView>, library: Seq<char>, from: int)
    requires
        0 <= from <= index.len(),
    ensures
        from <= library_position(index, library, from) <= index.len(),
        library_position(index, library, from) < index.len() ==> index[library_position(
            index,
            library,
            from,
        )].library == library,
        forall|j: int|
            from <= j < library_position(index, library, from) ==> index[j].library != library,
    decreases index.len() - from,
{
    if from < index.len() && index[from].library != library {
        lemma_library_position(index, library, from + 1);
    }
}

/// No two entries of `index` are for the same library.
pub open spec fn distinct_libraries(index: Seq<EntryView>) -> bool {
    forall|i: int, j: int| 0 <= i < j < index.len() ==> index[i].library != index[j].library
}

/// Every entry of `index` has at least one dependent.
pub open spec fn no_empty_entry(index: Seq<EntryView>) -> bool {
    forall|i: int| 0 <= i < index.len() ==> index[i].dependents.len() > 0
}

/// The files recorded as dependents of `library`, in the order in which
/// they were added; none where the index has no entry for the library.
pub open spec fn dependents_of(index: Seq<EntryView>, library: Seq<char>) -> Seq<Seq<char>> {
    let at = library_position(index, library, 0);
    if at < index.len() {
        index[at].dependents
    } else {
        Seq::empty()
    }
}

/// In an index whose libraries are all different, the entry at position `at`
/// is the one that a search for its library finds.
pub proof fn lemma_position_of_entry(index: Seq<EntryView>, at: int)
    requires
        distinct_libraries(index),
        0 <= at < index.len(),
    ensures
        library_position(index, index[at].library, 0) == at,
{
    lemma_library_position(index, index[at].library, 0);
}

/// `file`, `times` times over.
pub open spec fn repeated(file: Seq<char>, times: nat) -> Seq<Seq<char>> {
    Seq::new(times, |i: int| file)
}

/// The files that `records` name as dependents of `library`: record by
/// record, each file once for each time its record names the library.
pub open spec fn dependents_in(records: Seq<RecordView>, library: Seq<char>) -> Seq<Seq<char>>
    decreases records.len(),
{
    if records.len() == 0 {
        Seq::empty()
    } else {
        dependents_in(records.drop_last(), library) + repeated(
            records.last().file,
            records.last().libs.to_multiset().count(library),
        )
    }
}

/// A search for `library` ends at the same place in two indexes that name
/// the same libraries at the same places, where the longer one has no
/// further entry for `library`.
proof fn lemma_position_same_libraries(
    a: Seq<EntryView>,
    b: Seq<EntryView>,
    library: Seq<char>,
    from: int,
)
    requires
        0 <= from <= a.len() <= b.len(),
        forall|i: int| 0 <= i < a.len() ==> a[i].library == b[i].library,
        forall|i: int| a.len() <= i < b.len() ==> b[i].library != library,
    ensures
        library_position(a, library, from) < a.len() ==> library_position(b, library, from)
            == library_position(a, library, from),
        library_position(a, library, from) >= a.len() ==> library_position(b, library, from)
            == b.len(),
    decreases b.len() - from,
{
    if from < a.len() {
        if a[from].library != library {
            lemma_position_same_libraries(a, b, library, from + 1);
        }
    } else {
        lemma_library_position(b, library, from);
    }
}

/// Recording one more dependent of a library appends the file to that
/// library's dependents and leaves those of every other library as they
/// were. No entry is removed or moved, at most one is added at the end, and
/// an index whose libraries are all different, or whose entries all have
/// dependents, stays so.
pub proof fn lemma_add_dependent(index: Seq<EntryView>, library: Seq<char>, file: Seq<char>)
    ensures
        ({
            let after = add_dependent_spec(index, library, file);
            &&& index.len() <= after.len() <= index.len() + 1
            &&& forall|i: int| 0 <= i < index.len() ==> after[i].library == index[i].library
            &&& dependents_of(after, library) == dependents_of(index, library).push(file)
            &&& forall|other: Seq<char>|
                other != library ==> #[trigger] dependents_of(after, other) == dependents_of(
                    index,
                    other,
                )
            &&& distinct_libraries(index) ==> distinct_libraries(after)
            &&& no_empty_entry(index) ==> no_empty_entry(after)
        }),
{
    let after = add_dependent_spec(index, library, file);
    let at = library_position(index, library, 0);
    lemma_library_position(index, library, 0);
    lemma_library_position(after, library, 0);
    if at < index.len() {
        lemma_position_same_libraries(index, after, library, 0);
    } else {
        assert(forall|j: int| 0 <= j < index.len() ==> after[j] == index[j]);
        assert(after[index.len() as int].library == library);
        assert(dependents_of(after, library) =~= dependents_of(index, library).push(file));
    }
    assert forall|other: Seq<char>| other != library implies #[trigger] dependents_of(
        after,
        other,
    ) == dependents_of(index, other) by {
        lemma_position_same_libraries(index, after, other, 0);
        lemma_library_position(index, other, 0);
    }
}

/// Recording a file under the libraries of its record appends the file to
/// the dependents of each library, once for each time the record names it,
/// and leaves the dependents of every other library as they were. No entry
/// is removed or moved, and an index whose libraries are all different, or
/// whose entries all have dependents, stays so.
pub proof fn lemma_add_record(index: Seq<EntryView>, file: Seq<char>, libs: Seq<Seq<char>>)
    ensures
        ({
            let after = add_record_spec(index, file, libs);
            &&& index.len() <= after.len()
            &&& forall|i: int| 0 <= i < index.len() ==> after[i].library == index[i].library
            &&& forall|library: Seq<char>| #[trigger]
                dependents_of(after, library) == dependents_of(index, library) + repeated(
                    file,
                    libs.to_multiset().count(library),
                )
            &&& distinct_libraries(index) ==> distinct_libraries(after)
            &&& no_empty_entry(index) ==> no_empty_entry(after)
        }),
    decreases libs.len(),
{
    broadcast use vstd::multiset::group_multiset_axioms;

    let after = add_record_spec(index, file, libs);
    if libs.len() == 0 {
        assert(libs.to_multiset() =~= Multiset::<Seq<char>>::empty()) by {
            libs.to_multiset_ensures();
        }
        assert forall|library: Seq<char>| #[trigger]
            dependents_of(after, library) == dependents_of(index, library) + repeated(
                file,
                libs.to_multiset().count(library),
            ) by {
            assert(dependents_of(index, library) + repeated(file, 0) =~= dependents_of(
                index,
                library,
            ));
        }
    } else {
        let front = libs.drop_last();
        let last = libs.last();
        let mid = add_record_spec(index, file, front);
        lemma_add_record(index, file, front);
        lemma_add_dependent(mid, last, file);
        assert(libs.to_multiset() =~= front.to_multiset().insert(last)) by {
            vstd::seq_lib::to_multiset_build(front, last);
            assert(front.push(last) =~= libs);
        }
        assert forall|library: Seq<char>| #[trigger]
            dependents_of(after, library) == dependents_of(index, library) + repeated(
                file,
                libs.to_multiset().count(library),
            ) by {
            let before = front.to_multiset().count(library);
            if library == last {
                assert((dependents_of(index, library) + repeated(file, before)).push(file)
                    =~= dependents_of(index, library) + repeated(file, before + 1));
            }
        }
    }
}

/// The index that a fold of records gives has one entry for each library
/// that a record names, none without dependents, and records under each
/// library exactly the files that name it, in record order.
pub proof fn lemma_aggregate(records: Seq<RecordView>)
    ensures
        distinct_libraries(aggregate_spec(records)),
        no_empty_entry(aggregate_spec(records)),
        forall|library: Seq<char>| #[trigger]
            dependents_of(aggregate_spec(records), library) == dependents_in(records, library),
    decreases records.len(),
{
    if records.len() > 0 {
        lemma_aggregate(records.drop_last());
        lemma_add_record(
            aggregate_spec(records.drop_last()),
            records.last().file,
            records.last().libs,
        );
    }
}

/// An index that is being filled. Files are added one record at a time;
/// [`DependencyIndex::into_report`] ends the filling and gives the entries
/// in reporting order.
///
/// The entries stand in the order in which their libraries first appeared.
/// No library has two entries, and no entry is without dependents.
#[derive(Debug)]
pub struct DependencyIndex {
    entries: Vec<IndexEntry>,
}

impl View for DependencyIndex {
    type V = Seq<EntryView>;

    closed spec fn view(&self) -> Seq<EntryView> {
        entry_views(self.entries@)
    }
}

impl DependencyIndex {
    #[verifier::type_invariant]
    spec fn one_entry_per_library(self) -> bool {
        &&& distinct_libraries(entry_views(self.entries@))
        &&& no_empty_entry(entry_views(self.entries@))
    }

    /// An index without entries.
    pub fn new() -> (index: Self)
        ensures
            index@ == Seq::<EntryView>::empty(),
    {
        let index = DependencyIndex { entries: Vec::new() };
        assert(index@ =~= Seq::<EntryView>::empty());
        index
    }

    /// Number of libraries in the index.
    pub fn len(&self) -> (count: usize)
        ensures
            count == self@.len(),
    {
        self.entries.len()
    }

    /// The entries, in the order in which their libraries first appeared.
    /// No two of them are for the same library, and each has dependents.
    pub fn entries(&self) -> (entries: &Vec<IndexEntry>)
        ensures
            entry_views(entries@) == self@,
            distinct_libraries(self@),
            no_empty_entry(self@),
    {
        proof {
            use_type_invariant(self);
        }
        &self.entries
    }

    /// Records `file` as one more dependent of `library`: at the end of the
    /// library's entry, or in a new last entry where the library had none.
    pub fn add_dependent(&mut self, library: String, file: String)
        ensures
            final(self)@ == add_dependent_spec(old(self)@, library@, file@),
    {
        let ghost before = self@;
        proof {
            use_type_invariant(&*self);
            lemma_add_dependent(before, library@, file@);
        }
        let mut entries: Vec<IndexEntry> = Vec::new();
        proof {
            assert(entry_views(entries@) =~= Seq::<EntryView>::empty());
        }
        core::mem::swap(&mut self.entries, &mut entries);
        let count: usize = entries.len();
        let mut at: usize = 0;
        while at < count && !(entries[at].library == library)
            invariant
                at <= count == entries@.len(),
                entry_views(entries@) == before,
                library_position(before, library@, 0) == library_position(
                    before,
                    library@,
                    at as int,
                ),
            decreases count - at,
        {
            at = at + 1;
        }
        if at < count {
            let ghost was = entries@[at as int];
            entries[at].dependents.push(file);
            proof {
                assert(texts(was.dependents@.push(file)) =~= texts(was.dependents@).push(file@));
                assert(entry_views(entries@) =~= add_dependent_spec(before, library@, file@));
            }
        } else {
            let mut dependents: Vec<String> = Vec::new();
            dependents.push(file);
            proof {
                assert(texts(dependents@) =~= seq![file@]);
            }
            entries.push(IndexEntry { library, dependents });
            proof {
                assert(entry_views(entries@) =~= add_dependent_spec(before, library@, file@));
            }
        }
        core::mem::swap(&mut self.entries, &mut entries);
    }

    /// Records the file of `record` under each library that it needs, in
    /// the order of the record and once for each time the library is named.
    pub fn add_record(&mut self, record: &DependencyRecord)
        ensures
            final(self)@ == add_record_spec(old(self)@, record@.file, record@.libs),
    {
        let ghost before = self@;
        let ghost libs = texts(record.libs@);
        let mut done: usize = 0;
        proof {
            assert(libs.take(0) =~= Seq::<Seq<char>>::empty());
        }
        while done < record.libs.len()
            invariant
                done <= record.libs@.len(),
                libs == texts(record.libs@),
                self@ == add_record_spec(before, record.file@, libs.take(done as int)),
            decreases record.libs@.len() - done,
        {
            let library: String = record.libs[done].clone();
            let file: String = record.file.clone();
            proof {
                let next = libs.take(done + 1);
                assert(next.drop_last() =~= libs.take(done as int));
                assert(next.last() == library@);
            }
            self.add_dependent(library, file);
            done = done + 1;
        }
        proof {
            assert(libs.take(done as int) =~= libs);
        }
    }

    /// Ends the filling and gives the entries in reporting order: ascending
    /// by the number of dependents, entries with equally many in the order
    /// in which their libraries first appeared. Each entry keeps its
    /// dependents in the order in which they were added.
    ///
    /// The order among entries with equally many dependents is a choice of
    /// this library; callers may rely on it.
    pub fn into_report(self) -> (report: Vec<IndexEntry>)
        ensures
            entry_views(report@) == report_order(self@),
            entry_views(report@).to_multiset() == self@.to_multiset(),
            ascending(entry_views(report@)),
            forall|i: int, j: int|
                0 <= i < j < report@.len() ==> due_before(
                    self@,
                    #[trigger] entry_views(report@)[i],
                    #[trigger] entry_views(report@)[j],
                ),
    {
        let ghost index = self@;
        proof {
            use_type_invariant(&self);
            lemma_report_permutation(index);
            lemma_report_ascending(index);
            lemma_report_stable(index);
        }
        let mut entries: Vec<IndexEntry> = self.entries;
        let mut report: Vec<IndexEntry> = Vec::new();
        proof {
            assert(index.skip(index.len() as int) =~= Seq::<EntryView>::empty());
            assert(entry_views(report@) =~= Seq::<EntryView>::empty());
        }
        while entries.len() > 0
            invariant
                entries@.len() <= index.len(),
                entry_views(entries@) == index.take(entries@.len() as int),
                entry_views(report@) == report_order(index.skip(entries@.len() as int)),
            decreases entries@.len(),
        {
            let ghost left = entries@.len() as int;
            let entry: IndexEntry = entries.pop().unwrap();
            let count: usize = entry.dependents.len();
            let ghost sorted = entry_views(report@);
            let mut slot: usize = 0;
            while slot < report.len() && report[slot].dependents.len() < count
                invariant
                    slot <= report@.len(),
                    sorted == entry_views(report@),
                    slot_for(sorted, count as nat, 0) == slot_for(sorted, count as nat, slot as int),
                decreases report@.len() - slot,
            {
                slot = slot + 1;
            }
            proof {
                let tail = index.skip(left - 1);
                assert(tail.drop_first() =~= index.skip(left));
                assert(tail.first() == index.take(left)[left - 1]);
                assert(entry@ == tail.first());
                assert(entry_views(entries@) =~= index.take(left - 1));
                assert(entry_views(report@.insert(slot as int, entry)) =~= sorted.insert(
                    slot as int,
                    entry@,
                ));
            }
            report.insert(slot, entry);
        }
        proof {
            assert(index.skip(0) =~= index);
        }
        report
    }
}

/// Folds `records`, in order, into a new index.
pub fn aggregate(records: &Vec<DependencyRecord>) -> (index: DependencyIndex)
    ensures
        index@ == aggregate_spec(record_views(records@)),
{
    let ghost all = record_views(records@);
    let mut index = DependencyIndex::new();
    let mut done: usize = 0;
    proof {
        assert(all.take(0) =~= Seq::<RecordView>::empty());
    }
    while done < records.len()
        invariant
            done <= records@.len(),
            all == record_views(records@),
            index@ == aggregate_spec(all.take(done as int)),
        decreases records@.len() - done,
    {
        proof {
            let next = all.take(done + 1);
            assert(next.drop_last() =~= all.take(done as int));
            assert(next.last() == records@[done as int]@);
        }
        index.add_record(&records[done]);
        done = done + 1;
    }
    proof {
        assert(all.take(done as int) =~= all);
    }
    index
}

} // verus!
