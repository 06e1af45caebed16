//! The report as lines of text.

use vstd::prelude::*;
use crate::extract::texts;
use crate::index::{entry_views, EntryView, IndexEntry};

verus! {

/// The character for a decimal digit.
pub open spec fn digit(d: nat) -> char {
    if d == 0 {
        '0'
    } else if d == 1 {
        '1'
    } else if d == 2 {
        '2'
    } else if d == 3 {
        '3'
    } else if d == 4 {
        '4'
    } else if d == 5 {
        '5'
    } else if d == 6 {
        '6'
    } else if d == 7 {
        '7'
    } else if d == 8 {
        '8'
    } else {
        '9'
    }
}

/// A number in decimal, without sign or leading zeros.
pub open spec fn decimal(n: nat) -> Seq<char>
    decreases n,
{
    if n < 10 {
        seq![digit(n)]
    } else {
        decimal(n / 10).push(digit(n % 10))
    }
}

/// The first line of a block: the library and the number of its dependents.
pub open spec fn heading_spec(library: Seq<char>, count: nat) -> Seq<char> {
    library + seq![' ', '('] + decimal(count) + seq![' ', 'e', 'x', 'e', 's', ')']
}

/// The line for one dependent: the file name behind a tab and an arrow.
pub open spec fn dependent_line_spec(file: Seq<char>) -> Seq<char> {
    seq!['\t', '<', '=', ' '] + file
}

/// The lines of one block: the heading, one line for each dependent in
/// order, and an empty line.
pub open spec fn block_lines(entry: EntryView) -> Seq<Seq<char>> {
    seq![heading_spec(entry.library, entry.dependents.len())] + entry.dependents.map_values(
        |file: Seq<char>| dependent_line_spec(file),
    ) + seq![Seq::<char>::empty()]
}

/// The lines of a report: the blocks of its entries, in order.
pub open spec fn report_lines(report: Seq<EntryView>) -> Seq<Seq<char>>
    decreases report.len(),
{
    if report.len() == 0 {
        Seq::empty()
    } else {
        report_lines(report.drop_last()) + block_lines(report.last())
    }
}

/// Formats the heading of a block with `format!`.
///
/// Trusted: a string is written as it is, and a `usize` in decimal, without
/// sign, padding or leading zeros.
#[verifier::external_body]
fn heading(library: &String, count: usize) -> (line: String)
    ensures
        line@ == heading_spec(library@, count as nat),
{
    format!("{} ({} exes)", library, count)
}

/// Formats the line of one dependent with `format!`.
///
/// Trusted: a string is written as it is.
#[verifier::external_body]
fn dependent_line(file: &String) -> (line: String)
    ensures
        line@ == dependent_line_spec(file@),
{
    format!("\t<= {}", file)
}

/// Renders a report as lines of text, one block for each entry: the
/// library with the number of files that need it, then each of those files
/// on a line of its own, then an empty line.
pub fn render_report(report: &Vec<IndexEntry>) -> (lines: Vec<String>)
    ensures
        texts(lines@) == report_lines(entry_views(report@)),
{
    let ghost all = entry_views(report@);
    let mut lines: Vec<String> = Vec::new();
    let mut block: usize = 0;
    proof {
        assert(all.take(0) =~= Seq::<EntryView>::empty());
        assert(texts(lines@) =~= Seq::<Seq<char>>::empty());
    }
    while block < report.len()
        invariant
            block <= report@.len(),
            all == entry_views(report@),
            texts(lines@) == report_lines(all.take(block as int)),
        decreases report@.len() - block,
    {
        let entry: &IndexEntry = &report[block];
        let ghost before = texts(lines@);
        let ghost files = texts(entry.dependents@);
        let ghost rows = files.map_values(|file: Seq<char>| dependent_line_spec(file));
        let first: String = heading(&entry.library, entry.dependents.len());
        proof {
            assert(texts(lines@.push(first)) =~= before + seq![first@]);
        }
        lines.push(first);
        let mut row: usize = 0;
        while row < entry.dependents.len()
            invariant
                row <= entry.dependents@.len(),
                files == texts(entry.dependents@),
                rows == files.map_values(|file: Seq<char>| dependent_line_spec(file)),
                texts(lines@) == before + seq![
                    heading_spec(entry.library@, entry.dependents@.len()),
                ] + rows.take(row as int),
            decreases entry.dependents@.len() - row,
        {
            let line: String = dependent_line(&entry.dependents[row]);
            proof {
                assert(line@ == rows[row as int]);
                assert(texts(lines@.push(line)) =~= texts(lines@).push(line@));
                assert(rows.take(row + 1) =~= rows.take(row as int).push(rows[row as int]));
            }
            lines.push(line);
            row = row + 1;
        }
        let blank: String = String::new();
        proof {
            assert(rows.take(row as int) =~= rows);
            assert(texts(lines@.push(blank)) =~= texts(lines@).push(blank@));
            let next = all.take(block + 1);
            assert(next.drop_last() =~= all.take(block as int));
            assert(next.last() == entry@);
            assert(texts(lines@).push(blank@) =~= before + block_lines(entry@));
        }
        lines.push(blank);
        block = block + 1;
    }
    proof {
        assert(all.take(block as int) =~= all);
    }
    lines
}

} // verus!
