//! Runtime dependencies of ELF objects.
//!
//! Given the bytes of a file, the library decides whether it is an ELF
//! object, validates the header, finds the dynamic section, decodes its
//! entries and resolves every needed-library entry through the string table
//! that the section declares. A second stage folds the per-file results into
//! an index from library name to the files that need it, and orders that
//! index for reporting.

pub mod wire;
pub mod error;
pub mod sniff;
pub mod header;
pub mod section;
pub mod dynamic;
pub mod strtab;
pub mod extract;
pub mod index;
pub mod report;
pub mod scan;
pub mod render;
