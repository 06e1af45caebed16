//! Whole-buffer tests on objects that are put together byte by byte.

use elfdeps::dynamic::{DT_NEEDED, DT_NULL, DT_STRSZ, DT_STRTAB};
use elfdeps::error::HandleError;
use elfdeps::extract::{extract_libs, get_needed_libs, SkippedEntry};
use elfdeps::header::decode_header;
use elfdeps::index::DependencyIndex;
use elfdeps::scan::{process_file, FileOutcome};
use elfdeps::section::find_dynamic_section;
use elfdeps::sniff::{classify, FileClass, WordSize};
use elfdeps::wire::ByteOrder;

fn put(out: &mut Vec<u8>, value: u64, width: usize, big: bool) {
    let le = value.to_le_bytes();
    if big {
        for i in (0..width).rev() {
            out.push(le[i]);
        }
    } else {
        for i in 0..width {
            out.push(le[i]);
        }
    }
}

/// An object with a null section and, if `dynamic` is given, one dynamic
/// section. The layout is: header, string bytes, dynamic entries, section
/// header table. `strtab` and `strsz` entries are appended as asked.
fn object(
    wide: bool,
    big: bool,
    strings: &[u8],
    dynamic: Option<&[(u64, u64)]>,
) -> Vec<u8> {
    let word = if wide { 8 } else { 4 };
    let header_size = if wide { 64 } else { 52 };
    let section_size = if wide { 64 } else { 40 };
    let strings_at = header_size as u64;
    let dynamic_at = strings_at + strings.len() as u64;
    let mut body: Vec<u8> = Vec::new();
    if let Some(entries) = dynamic {
        for (tag, value) in entries {
            put(&mut body, *tag, word, big);
            put(&mut body, *value, word, big);
        }
    }
    let table_at = dynamic_at + body.len() as u64;
    let count: u64 = if dynamic.is_some() { 2 } else { 1 };

    let mut out: Vec<u8> = vec![0x7f, b'E', b'L', b'F'];
    out.push(if wide { 2 } else { 1 });
    out.push(if big { 2 } else { 1 });
    out.push(1);
    out.resize(16, 0);
    put(&mut out, 3, 2, big); // type
    put(&mut out, 62, 2, big); // machine
    put(&mut out, 1, 4, big); // version
    put(&mut out, 0, word, big); // entry
    put(&mut out, 0, word, big); // program header offset
    put(&mut out, table_at, word, big); // section header offset
    put(&mut out, 0, 4, big); // flags
    put(&mut out, header_size as u64, 2, big);
    put(&mut out, 0, 2, big); // program header entry size
    put(&mut out, 0, 2, big); // program header count
    put(&mut out, section_size as u64, 2, big);
    put(&mut out, count, 2, big);
    put(&mut out, 0, 2, big); // section name table index
    assert_eq!(out.len(), header_size);
    out.extend_from_slice(strings);
    out.extend_from_slice(&body);
    out.resize(out.len() + section_size, 0); // the null section
    if dynamic.is_some() {
        put(&mut out, 0, 4, big); // name
        put(&mut out, 6, 4, big); // type: dynamic
        put(&mut out, 0, word, big); // flags
        put(&mut out, 0, word, big); // address
        put(&mut out, dynamic_at, word, big);
        put(&mut out, body.len() as u64, word, big);
        let at = out.len();
        out.resize(at + section_size - (8 + 4 * word), 0);
    }
    out
}

fn strings_at(wide: bool) -> u64 {
    if wide {
        64
    } else {
        52
    }
}

fn two_names() -> &'static [u8] {
    b"libfoo.so\0libbar.so\0"
}

fn names(libs: &[String]) -> Vec<&str> {
    libs.iter().map(|s| s.as_str()).collect()
}

#[test]
fn round_trip_two_names() {
    let entries = [
        (DT_NEEDED, 0),
        (DT_NEEDED, 10),
        (DT_STRTAB, strings_at(true)),
        (DT_STRSZ, 20),
        (DT_NULL, 0),
    ];
    let data = object(true, false, two_names(), Some(&entries));
    let found = get_needed_libs(&data).unwrap();
    assert_eq!(names(&found.libs), vec!["libfoo.so", "libbar.so"]);
    assert!(found.skipped.is_empty());
}

#[test]
fn needed_entries_keep_order_and_duplicates() {
    let entries = [
        (DT_STRTAB, strings_at(true)),
        (DT_STRSZ, 20),
        (DT_NEEDED, 10),
        (DT_NEEDED, 0),
        (DT_NEEDED, 10),
        (DT_NEEDED, 10),
        (DT_NULL, 0),
    ];
    let data = object(true, false, two_names(), Some(&entries));
    let found = get_needed_libs(&data).unwrap();
    assert_eq!(
        names(&found.libs),
        vec!["libbar.so", "libfoo.so", "libbar.so", "libbar.so"]
    );
    assert!(found.skipped.is_empty());
}

#[test]
fn name_may_start_inside_another() {
    let entries = [(DT_NEEDED, 3), (DT_STRTAB, strings_at(true)), (DT_STRSZ, 20)];
    let data = object(true, false, two_names(), Some(&entries));
    let found = get_needed_libs(&data).unwrap();
    assert_eq!(names(&found.libs), vec!["foo.so"]);
}

#[test]
fn offset_at_and_past_table_end_is_skipped() {
    let entries = [
        (DT_NEEDED, 0),
        (DT_NEEDED, 20),
        (DT_NEEDED, 21),
        (DT_NEEDED, 10),
        (DT_STRTAB, strings_at(true)),
        (DT_STRSZ, 20),
        (DT_NULL, 0),
    ];
    let data = object(true, false, two_names(), Some(&entries));
    let found = get_needed_libs(&data).unwrap();
    assert_eq!(names(&found.libs), vec!["libfoo.so", "libbar.so"]);
    assert_eq!(
        found.skipped,
        vec![SkippedEntry::Unresolved(20), SkippedEntry::Unresolved(21)]
    );
}

#[test]
fn name_without_terminator_inside_table_is_skipped() {
    // The table is declared one byte short, so the second name has no
    // terminator inside it although a zero byte follows in the buffer.
    let entries = [
        (DT_NEEDED, 0),
        (DT_NEEDED, 10),
        (DT_STRTAB, strings_at(true)),
        (DT_STRSZ, 19),
    ];
    let data = object(true, false, two_names(), Some(&entries));
    let found = get_needed_libs(&data).unwrap();
    assert_eq!(names(&found.libs), vec!["libfoo.so"]);
    assert_eq!(found.skipped, vec![SkippedEntry::Unresolved(10)]);
}

#[test]
fn offset_wider_than_32_bits_is_skipped() {
    let entries = [
        (DT_NEEDED, 0x1_0000_0000),
        (DT_NEEDED, 10),
        (DT_STRTAB, strings_at(true)),
        (DT_STRSZ, 20),
    ];
    let data = object(true, false, two_names(), Some(&entries));
    let found = get_needed_libs(&data).unwrap();
    assert_eq!(names(&found.libs), vec!["libbar.so"]);
    assert_eq!(found.skipped, vec![SkippedEntry::OffsetTooWide(0x1_0000_0000)]);
}

#[test]
fn missing_table_size_fails_every_lookup() {
    let entries = [(DT_NEEDED, 0), (DT_NEEDED, 10), (DT_STRTAB, strings_at(true))];
    let data = object(true, false, two_names(), Some(&entries));
    let found = get_needed_libs(&data).unwrap();
    assert!(found.libs.is_empty());
    assert_eq!(
        found.skipped,
        vec![SkippedEntry::Unresolved(0), SkippedEntry::Unresolved(10)]
    );
}

#[test]
fn missing_table_start_fails_every_lookup() {
    let entries = [(DT_NEEDED, 0), (DT_STRSZ, 20)];
    let data = object(true, false, two_names(), Some(&entries));
    let found = get_needed_libs(&data).unwrap();
    assert!(found.libs.is_empty());
    assert_eq!(found.skipped, vec![SkippedEntry::Unresolved(0)]);
}

#[test]
fn table_past_buffer_end_fails_every_lookup() {
    let entries = [
        (DT_NEEDED, 0),
        (DT_STRTAB, strings_at(true)),
        (DT_STRSZ, 1_000_000),
    ];
    let data = object(true, false, two_names(), Some(&entries));
    let found = get_needed_libs(&data).unwrap();
    assert!(found.libs.is_empty());
    assert_eq!(found.skipped, vec![SkippedEntry::Unresolved(0)]);
}

#[test]
fn table_bounds_that_overflow_fail_every_lookup() {
    let entries = [
        (DT_NEEDED, 0),
        (DT_STRTAB, u64::MAX),
        (DT_STRSZ, 20),
    ];
    let data = object(true, false, two_names(), Some(&entries));
    let found = get_needed_libs(&data).unwrap();
    assert!(found.libs.is_empty());
    assert_eq!(found.skipped, vec![SkippedEntry::Unresolved(0)]);
}

#[test]
fn last_table_start_counts() {
    let entries = [
        (DT_STRTAB, 0),
        (DT_NEEDED, 10),
        (DT_STRTAB, strings_at(true)),
        (DT_STRSZ, 1),
        (DT_STRSZ, 20),
    ];
    let data = object(true, false, two_names(), Some(&entries));
    let found = get_needed_libs(&data).unwrap();
    assert_eq!(names(&found.libs), vec!["libbar.so"]);
}

#[test]
fn entries_after_terminator_are_not_read() {
    let entries = [
        (DT_NEEDED, 0),
        (DT_STRTAB, strings_at(true)),
        (DT_STRSZ, 20),
        (DT_NULL, 0),
        (DT_NEEDED, 10),
    ];
    let data = object(true, false, two_names(), Some(&entries));
    let found = get_needed_libs(&data).unwrap();
    assert_eq!(names(&found.libs), vec!["libfoo.so"]);
    assert!(found.skipped.is_empty());
}

#[test]
fn section_without_terminator_is_read_to_its_end() {
    let entries = [(DT_STRTAB, strings_at(true)), (DT_STRSZ, 20), (DT_NEEDED, 10)];
    let data = object(true, false, two_names(), Some(&entries));
    let found = get_needed_libs(&data).unwrap();
    assert_eq!(names(&found.libs), vec!["libbar.so"]);
}

#[test]
fn big_endian_64_bit_object() {
    let entries = [
        (DT_NEEDED, 10),
        (DT_NEEDED, 0),
        (DT_STRTAB, strings_at(true)),
        (DT_STRSZ, 20),
        (DT_NULL, 0),
    ];
    let data = object(true, true, two_names(), Some(&entries));
    assert_eq!(classify(&data), FileClass::Elf64);
    let header = decode_header(&data, FileClass::Elf64).unwrap().header();
    assert_eq!(header.order, ByteOrder::Big);
    let found = get_needed_libs(&data).unwrap();
    assert_eq!(names(&found.libs), vec!["libbar.so", "libfoo.so"]);
}

#[test]
fn little_endian_32_bit_object() {
    let entries = [
        (DT_NEEDED, 0),
        (DT_NEEDED, 10),
        (DT_STRTAB, strings_at(false)),
        (DT_STRSZ, 20),
        (DT_NULL, 0),
    ];
    let data = object(false, false, two_names(), Some(&entries));
    assert_eq!(classify(&data), FileClass::Elf32);
    let header = decode_header(&data, FileClass::Elf32).unwrap().header();
    assert_eq!(header.word, WordSize::Bits32);
    assert_eq!(header.order, ByteOrder::Little);
    assert_eq!(header.shentsize, 40);
    assert_eq!(header.shnum, 2);
    let found = get_needed_libs(&data).unwrap();
    assert_eq!(names(&found.libs), vec!["libfoo.so", "libbar.so"]);
}

#[test]
fn big_endian_32_bit_object() {
    let entries = [
        (DT_STRTAB, strings_at(false)),
        (DT_STRSZ, 20),
        (DT_NEEDED, 10),
        (DT_NULL, 0),
    ];
    let data = object(false, true, two_names(), Some(&entries));
    let found = get_needed_libs(&data).unwrap();
    assert_eq!(names(&found.libs), vec!["libbar.so"]);
}

#[test]
fn header_fields_of_64_bit_object() {
    let entries = [(DT_NULL, 0)];
    let data = object(true, false, two_names(), Some(&entries));
    let object = decode_header(&data, FileClass::Elf64).unwrap();
    assert_eq!(object.data(), &data[..]);
    let header = object.header();
    assert_eq!(header.word, WordSize::Bits64);
    assert_eq!(header.order, ByteOrder::Little);
    assert_eq!(header.shoff, 64 + 20 + 16);
    assert_eq!(header.shentsize, 64);
    assert_eq!(header.shnum, 2);
}

#[test]
fn dynamic_section_bytes_are_those_of_the_section() {
    let entries = [(DT_NEEDED, 7), (DT_NULL, 0)];
    let data = object(true, false, two_names(), Some(&entries));
    let object = decode_header(&data, FileClass::Elf64).unwrap();
    let section = find_dynamic_section(&object).unwrap();
    assert_eq!(section, &data[84..116]);
    assert_eq!(section[0], 1);
    assert_eq!(section[8], 7);
}

#[test]
fn object_without_dynamic_section_has_no_dependencies() {
    let data = object(true, false, two_names(), None);
    assert_eq!(classify(&data), FileClass::Elf64);
    let object = decode_header(&data, FileClass::Elf64).unwrap();
    assert_eq!(
        find_dynamic_section(&object).err().unwrap(),
        HandleError::NoDynamicSection
    );
    assert_eq!(extract_libs(&object).unwrap_err(), HandleError::NoDynamicSection);
    assert_eq!(get_needed_libs(&data).unwrap_err(), HandleError::NoDynamicSection);

    let mut index = DependencyIndex::new();
    let outcome = process_file(&mut index, "static.bin", &data);
    assert!(matches!(outcome, FileOutcome::NoDependencies));
    assert_eq!(index.len(), 0);
}

#[test]
fn object_without_any_section_has_no_dependencies() {
    let mut data = object(true, false, b"", None);
    // No section header table at all.
    for byte in &mut data[40..48] {
        *byte = 0;
    }
    data[60] = 0;
    data.truncate(64);
    assert_eq!(get_needed_libs(&data).unwrap_err(), HandleError::NoDynamicSection);
}

#[test]
fn wrong_magic_is_not_an_object() {
    let entries = [(DT_NULL, 0)];
    let mut data = object(true, false, two_names(), Some(&entries));
    data[1] = b'X';
    assert_eq!(classify(&data), FileClass::NotElf);
    assert_eq!(get_needed_libs(&data).unwrap_err(), HandleError::NotObjectFormat);
    assert_eq!(
        decode_header(&data, classify(&data)).err().unwrap(),
        HandleError::NotObjectFormat
    );
}

#[test]
fn unknown_class_byte_is_not_an_object() {
    let entries = [(DT_NULL, 0)];
    let mut data = object(true, false, two_names(), Some(&entries));
    data[4] = 3;
    assert_eq!(classify(&data), FileClass::NotElf);
    data[4] = 0;
    assert_eq!(classify(&data), FileClass::NotElf);
    assert_eq!(get_needed_libs(&data).unwrap_err(), HandleError::NotObjectFormat);
}

#[test]
fn short_buffers_are_not_objects() {
    assert_eq!(classify(&[]), FileClass::NotElf);
    assert_eq!(classify(&[0x7f, b'E', b'L', b'F']), FileClass::NotElf);
    let mut ident = vec![0x7f, b'E', b'L', b'F', 2, 1, 1];
    ident.resize(15, 0);
    assert_eq!(classify(&ident), FileClass::NotElf);
    assert_eq!(get_needed_libs(&ident).unwrap_err(), HandleError::NotObjectFormat);
    ident.push(0);
    assert_eq!(classify(&ident), FileClass::Elf64);
    ident[4] = 1;
    assert_eq!(classify(&ident), FileClass::Elf32);
}

#[test]
fn other_formats_are_not_objects() {
    let mut pe = vec![b'M', b'Z'];
    pe.resize(128, 0);
    assert_eq!(classify(&pe), FileClass::NotElf);
    let mut archive = b"!<arch>\n".to_vec();
    archive.resize(64, b' ');
    assert_eq!(classify(&archive), FileClass::NotElf);
    let text = b"#!/bin/sh\necho hello world\n";
    assert_eq!(classify(text), FileClass::NotElf);
    assert_eq!(get_needed_libs(text).unwrap_err(), HandleError::NotObjectFormat);
}

#[test]
fn truncated_header_is_malformed() {
    let entries = [(DT_NULL, 0)];
    let data = object(true, false, two_names(), Some(&entries));
    assert_eq!(
        decode_header(&data[..63], FileClass::Elf64).err().unwrap(),
        HandleError::MalformedHeader
    );
    assert_eq!(get_needed_libs(&data[..63]).unwrap_err(), HandleError::MalformedHeader);
    assert_eq!(get_needed_libs(&data[..16]).unwrap_err(), HandleError::MalformedHeader);
    let narrow = object(false, false, two_names(), Some(&entries));
    assert_eq!(
        decode_header(&narrow[..51], FileClass::Elf32).err().unwrap(),
        HandleError::MalformedHeader
    );
}

#[test]
fn unknown_byte_order_is_malformed() {
    let entries = [(DT_NULL, 0)];
    let mut data = object(true, false, two_names(), Some(&entries));
    data[5] = 0;
    assert_eq!(get_needed_libs(&data).unwrap_err(), HandleError::MalformedHeader);
    data[5] = 3;
    assert_eq!(
        decode_header(&data, FileClass::Elf64).err().unwrap(),
        HandleError::MalformedHeader
    );
}

#[test]
fn section_table_past_buffer_end_is_malformed() {
    let entries = [(DT_NULL, 0)];
    let data = object(true, false, two_names(), Some(&entries));
    // One byte short of the end of the section header table.
    let cut = &data[..data.len() - 1];
    assert_eq!(
        decode_header(cut, FileClass::Elf64).err().unwrap(),
        HandleError::MalformedHeader
    );
    assert_eq!(get_needed_libs(cut).unwrap_err(), HandleError::MalformedHeader);
    // The whole table fits exactly.
    assert!(decode_header(&data, FileClass::Elf64).is_ok());

    let mut far = data.clone();
    for byte in &mut far[40..48] {
        *byte = 0xff;
    }
    assert_eq!(get_needed_libs(&far).unwrap_err(), HandleError::MalformedHeader);
}

#[test]
fn section_entry_too_small_is_malformed() {
    let entries = [(DT_NULL, 0)];
    let mut data = object(true, false, two_names(), Some(&entries));
    data[58] = 63;
    assert_eq!(
        decode_header(&data, FileClass::Elf64).err().unwrap(),
        HandleError::MalformedHeader
    );
}

#[test]
fn dynamic_section_past_buffer_end_is_malformed() {
    let entries = [(DT_NEEDED, 0), (DT_NULL, 0)];
    let mut data = object(true, false, two_names(), Some(&entries));
    let size_at = data.len() - 64 + 32;
    data[size_at + 2] = 0x10; // size grows by a megabyte
    let object = decode_header(&data, FileClass::Elf64).unwrap();
    assert_eq!(
        find_dynamic_section(&object).err().unwrap(),
        HandleError::MalformedHeader
    );
    assert_eq!(get_needed_libs(&data).unwrap_err(), HandleError::MalformedHeader);
}

#[test]
fn ill_formed_name_is_decoded_with_replacement() {
    let strings = b"lib\xff.so\0";
    let entries = [(DT_NEEDED, 0), (DT_STRTAB, strings_at(true)), (DT_STRSZ, 8)];
    let data = object(true, false, strings, Some(&entries));
    let found = get_needed_libs(&data).unwrap();
    assert_eq!(names(&found.libs), vec!["lib\u{fffd}.so"]);
}

#[test]
fn corrupt_file_does_not_stop_the_scan() {
    let first = [
        (DT_NEEDED, 0),
        (DT_STRTAB, strings_at(true)),
        (DT_STRSZ, 20),
        (DT_NULL, 0),
    ];
    let second = [
        (DT_NEEDED, 0),
        (DT_NEEDED, 10),
        (DT_STRTAB, strings_at(true)),
        (DT_STRSZ, 20),
        (DT_NULL, 0),
    ];
    let good_a = object(true, false, two_names(), Some(&first));
    let good_b = object(true, false, two_names(), Some(&second));
    let mut corrupt = good_a.clone();
    corrupt.truncate(70);

    let mut index = DependencyIndex::new();
    assert!(matches!(
        process_file(&mut index, "a.bin", &good_a),
        FileOutcome::Recorded(skipped) if skipped.is_empty()
    ));
    assert!(matches!(
        process_file(&mut index, "broken.bin", &corrupt),
        FileOutcome::Skipped(HandleError::MalformedHeader)
    ));
    assert!(matches!(
        process_file(&mut index, "notes.txt", b"just some text, nothing more"),
        FileOutcome::Skipped(HandleError::NotObjectFormat)
    ));
    assert!(matches!(
        process_file(&mut index, "b.bin", &good_b),
        FileOutcome::Recorded(skipped) if skipped.is_empty()
    ));

    let report = index.into_report();
    assert_eq!(report.len(), 2);
    assert_eq!(report[0].library, "libbar.so");
    assert_eq!(report[0].dependents, vec!["b.bin"]);
    assert_eq!(report[1].library, "libfoo.so");
    assert_eq!(report[1].dependents, vec!["a.bin", "b.bin"]);
}

#[test]
fn skipped_entries_are_reported_with_the_file() {
    let entries = [
        (DT_NEEDED, 0),
        (DT_NEEDED, 99),
        (DT_STRTAB, strings_at(true)),
        (DT_STRSZ, 20),
    ];
    let data = object(true, false, two_names(), Some(&entries));
    let mut index = DependencyIndex::new();
    match process_file(&mut index, "a.bin", &data) {
        FileOutcome::Recorded(skipped) => {
            assert_eq!(skipped, vec![SkippedEntry::Unresolved(99)]);
        }
        other => panic!("unexpected outcome {:?}", other),
    }
    assert_eq!(index.len(), 1);
    assert_eq!(index.entries()[0].library, "libfoo.so");
}
