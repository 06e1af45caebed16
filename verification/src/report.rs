//! The order in which the entries of an index are reported.

use vstd::prelude::*;
use vstd::seq_lib::{to_multiset_contains, to_multiset_insert};
use crate::index::{
    distinct_libraries, lemma_library_position, lemma_position_of_entry, library_position,
    EntryView,
};

verus! {

/// Position of the first entry at or after `from` that has at least `count`
/// dependents, or the length of `report` where there is none.
pub open spec fn slot_for(report: Seq<EntryView>, count: nat, from: int) -> int
    decreases report.len() - from,
{
    if from < 0 || from >= report.len() || report[from].dependents.len() >= count {
        from
    } else {
        slot_for(report, count, from + 1)
    }
}

/// `report` with `entry` placed after the entries with fewer dependents and
/// before all the others.
pub open spec fn place_first(entry: EntryView, report: Seq<EntryView>) -> Seq<EntryView> {
    report.insert(slot_for(report, entry.dependents.len(), 0), entry)
}

/// The entries of `index` in reporting order: ascending by the number of
/// dependents, and among entries with equally many, in index order.
pub open spec fn report_order(index: Seq<EntryView>) -> Seq<EntryView>
    decreases index.len(),
{
    if index.len() == 0 {
        Seq::empty()
    } else {
        place_first(index.first(), report_order(index.drop_first()))
    }
}

/// No entry has more dependents than an entry that comes after it.
pub open spec fn ascending(report: Seq<EntryView>) -> bool {
    forall|i: int, j: int|
        0 <= i < j < report.len() ==> report[i].dependents.len() <= report[j].dependents.len()
}

/// `slot_for` stops inside the report or at its end, passes only entries
/// with fewer than `count` dependents, and stops at one with at least
/// `count` unless it reaches the end.
pub proof fn lemma_slot_for(report: Seq<EntryView>, count: nat, from: int)
    requires
        0 <= from <= report.len(),
    ensures
        from <= slot_for(report, count, from) <= report.len(),
        forall|j: int|
            from <= j < slot_for(report, count, from) ==> report[j].dependents.len() < count,
        slot_for(report, count, from) < report.len() ==> report[slot_for(
            report,
            count,
            from,
        )].dependents.len() >= count,
    decreases report.len() - from,
{
    if from < report.len() && report[from].dependents.len() < count {
        lemma_slot_for(report, count, from + 1);
    }
}

/// Placing an entry into an ascending report keeps it ascending.
pub proof fn lemma_place_first_ascending(entry: EntryView, report: Seq<EntryView>)
    requires
        ascending(report),
    ensures
        ascending(place_first(entry, report)),
{
    let count = entry.dependents.len();
    let slot = slot_for(report, count, 0);
    lemma_slot_for(report, count, 0);
    let placed = place_first(entry, report);
    assert forall|i: int, j: int| 0 <= i < j < placed.len() implies placed[i].dependents.len()
        <= placed[j].dependents.len() by {
        if j == slot {
            assert(placed[i] == report[i]);
        } else if i == slot {
            assert(placed[j] == report[j - 1]);
        } else {
            let a = if i < slot {
                i
            } else {
                i - 1
            };
            let b = if j < slot {
                j
            } else {
                j - 1
            };
            assert(placed[i] == report[a]);
            assert(placed[j] == report[b]);
        }
    }
}

/// The report is ascending by the number of dependents.
pub proof fn lemma_report_ascending(index: Seq<EntryView>)
    ensures
        ascending(report_order(index)),
    decreases index.len(),
{
    if index.len() > 0 {
        lemma_report_ascending(index.drop_first());
        lemma_place_first_ascending(index.first(), report_order(index.drop_first()));
    }
}

/// The report holds exactly the entries of the index, each as often as the
/// index holds it and with its dependents as they were.
pub proof fn lemma_report_permutation(index: Seq<EntryView>)
    ensures
        report_order(index).to_multiset() == index.to_multiset(),
        report_order(index).len() == index.len(),
    decreases index.len(),
{
    if index.len() == 0 {
        assert(report_order(index) =~= index);
    } else {
        let rest = report_order(index.drop_first());
        lemma_report_permutation(index.drop_first());
        let slot = slot_for(rest, index.first().dependents.len(), 0);
        lemma_slot_for(rest, index.first().dependents.len(), 0);
        to_multiset_insert(rest, slot, index.first());
        to_multiset_insert(index.drop_first(), 0, index.first());
        assert(index.drop_first().insert(0, index.first()) =~= index);
    }
}

/// Every entry of the report is an entry of the index.
pub proof fn lemma_report_entries_from_index(index: Seq<EntryView>, k: int)
    requires
        0 <= k < report_order(index).len(),
    ensures
        index.contains(report_order(index)[k]),
{
    let report = report_order(index);
    lemma_report_permutation(index);
    to_multiset_contains(report, report[k]);
    to_multiset_contains(index, report[k]);
    assert(report.contains(report[k]));
}

/// Position in `index` of the entry for `library`.
pub open spec fn first_appearance(index: Seq<EntryView>, library: Seq<char>) -> int {
    library_position(index, library, 0)
}

/// One entry is due before another in the report of `index`: it has fewer
/// dependents, or as many and an earlier place in the index.
pub open spec fn due_before(index: Seq<EntryView>, a: EntryView, b: EntryView) -> bool {
    ||| a.dependents.len() < b.dependents.len()
    ||| (a.dependents.len() == b.dependents.len() && first_appearance(index, a.library)
        < first_appearance(index, b.library))
}

/// Leaving out the first entry of an index moves every other library one
/// place forward.
proof fn lemma_position_after_first(index: Seq<EntryView>, library: Seq<char>, from: int)
    requires
        index.len() > 0,
        0 <= from <= index.len() - 1,
    ensures
        library_position(index, library, from + 1) == 1 + library_position(
            index.drop_first(),
            library,
            from,
        ),
    decreases index.len() - from,
{
    let rest = index.drop_first();
    if from < rest.len() {
        assert(rest[from] == index[from + 1]);
        if rest[from].library != library {
            lemma_position_after_first(index, library, from + 1);
        }
    }
}

/// Among the entries of an index whose libraries are all different, the
/// report puts each entry before every entry that has more dependents, and
/// before every entry that has as many and appeared later in the index.
pub proof fn lemma_report_stable(index: Seq<EntryView>)
    requires
        distinct_libraries(index),
    ensures
        forall|i: int, j: int|
            0 <= i < j < report_order(index).len() ==> due_before(
                index,
                #[trigger] report_order(index)[i],
                #[trigger] report_order(index)[j],
            ),
    decreases index.len(),
{
    if index.len() > 0 {
        let first = index.first();
        let tail = index.drop_first();
        let rest = report_order(tail);
        let count = first.dependents.len();
        let slot = slot_for(rest, count, 0);
        let report = report_order(index);
        assert(distinct_libraries(tail)) by {
            assert forall|i: int, j: int| 0 <= i < j < tail.len() implies tail[i].library
                != tail[j].library by {
                assert(tail[i] == index[i + 1] && tail[j] == index[j + 1]);
            }
        }
        lemma_report_stable(tail);
        lemma_report_ascending(tail);
        lemma_slot_for(rest, count, 0);
        lemma_position_of_entry(index, 0);
        // An entry of the rest stands one place further back in the index
        // than in the tail, and behind the first entry.
        assert forall|k: int| 0 <= k < rest.len() implies first_appearance(
            index,
            #[trigger] rest[k].library,
        ) == 1 + first_appearance(tail, rest[k].library) by {
            lemma_report_entries_from_index(tail, k);
            let p = choose|p: int| 0 <= p < tail.len() && tail[p] == rest[k];
            assert(index[p + 1] == rest[k]);
            assert(index[0].library != index[p + 1].library);
            lemma_position_after_first(index, rest[k].library, 0);
        }
        assert forall|i: int, j: int| 0 <= i < j < report.len() implies due_before(
            index,
            #[trigger] report[i],
            #[trigger] report[j],
        ) by {
            if j == slot {
                assert(report[i] == rest[i]);
                assert(report[j] == first);
            } else if i == slot {
                assert(report[i] == first);
                assert(report[j] == rest[j - 1]);
                assert(rest[slot].dependents.len() >= count);
                lemma_library_position(tail, rest[j - 1].library, 0);
            } else {
                let a = if i < slot {
                    i
                } else {
                    i - 1
                };
                let b = if j < slot {
                    j
                } else {
                    j - 1
                };
                assert(report[i] == rest[a]);
                assert(report[j] == rest[b]);
                assert(due_before(tail, rest[a], rest[b]));
            }
        }
    }
}

} // verus!
