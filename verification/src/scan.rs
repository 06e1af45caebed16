//! One step of a scan over many files: read what a file needs and fold it
//! into the index, or say why the file was left out.

use vstd::prelude::*;
use crate::error::HandleError;
use crate::extract::{get_needed_libs, get_needed_libs_spec, SkippedEntry};
use crate::index::{add_record_spec, DependencyIndex, DependencyRecord};

verus! {

/// What became of one file of a scan.
#[derive(Debug)]
pub enum FileOutcome {
    /// The file was parsed and recorded under each library it needs. The
    /// needed-library entries that gave no name are listed.
    Recorded(Vec<SkippedEntry>),
    /// The file is a well-formed object without a dynamic section. It needs
    /// no library, and the index is as it was.
    NoDependencies,
    /// The file was left out for the given reason, and the index is as it was.
    Skipped(HandleError),
}

/// Reads the libraries that the object in `data` needs and records `file`
/// under each of them. A file that cannot be parsed changes nothing in the
/// index, and does not keep later files from being recorded.
pub fn process_file(index: &mut DependencyIndex, file: &str, data: &[u8]) -> (outcome: FileOutcome)
    ensures
        match get_needed_libs_spec(data@) {
            Ok(found) => {
                &&& outcome matches FileOutcome::Recorded(skipped)
                &&& skipped@ == found.skipped
                &&& final(index)@ == add_record_spec(old(index)@, file@, found.libs)
            },
            Err(HandleError::NoDynamicSection) => {
                &&& outcome is NoDependencies
                &&& final(index)@ == old(index)@
            },
            Err(e) => {
                &&& outcome == FileOutcome::Skipped(e)
                &&& final(index)@ == old(index)@
            },
        },
{
    match get_needed_libs(data) {
        Ok(found) => {
            let record = DependencyRecord { file: file.to_owned(), libs: found.libs };
            index.add_record(&record);
            FileOutcome::Recorded(found.skipped)
        },
        Err(HandleError::NoDynamicSection) => FileOutcome::NoDependencies,
        Err(e) => FileOutcome::Skipped(e),
    }
}

} // verus!
