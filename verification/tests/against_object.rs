//! Holds the library's decoding against the readers of the `object` crate
//! on well-formed objects, where the two must agree.

use elfdeps::dynamic::{decode_entries, DynamicEntry, DT_NEEDED, DT_NULL, DT_STRSZ, DT_STRTAB};
use elfdeps::extract::get_needed_libs;
use elfdeps::header::decode_header;
use elfdeps::section::{find_dynamic_section, SHT_DYNAMIC};
use elfdeps::sniff::{classify, FileClass};
use elfdeps::wire::ByteOrder;
use object::elf::{FileHeader32, FileHeader64};
use object::read::elf::{Dyn, FileHeader};
use object::{Endianness, StringTable};

fn put_word(out: &mut Vec<u8>, value: u64, width: usize, big: bool) {
    let le = value.to_le_bytes();
    if big {
        for i in (0..width).rev() {
            out.push(le[i]);
        }
    } else {
        for i in 0..width {
            out.push(le[i]);
        }
    }
}

fn section_header(
    out: &mut Vec<u8>,
    wide: bool,
    big: bool,
    kind: u64,
    offset: u64,
    size: u64,
    entsize: u64,
) {
    let word = if wide { 8 } else { 4 };
    put_word(out, 0, 4, big); // name
    put_word(out, kind, 4, big);
    put_word(out, 0, word, big); // flags
    put_word(out, 0, word, big); // address
    put_word(out, offset, word, big);
    put_word(out, size, word, big);
    put_word(out, 0, 4, big); // link
    put_word(out, 0, 4, big); // info
    put_word(out, 1, word, big); // alignment
    put_word(out, entsize, word, big);
}

/// A complete object: header, strings (padded to eight bytes), dynamic
/// entries, and a table of three sections: null, dynamic, section names.
fn full_object(wide: bool, big: bool, strings: &[u8], dynamic: &[(u64, u64)]) -> Vec<u8> {
    let word = if wide { 8 } else { 4 };
    let header_size: u64 = if wide { 64 } else { 52 };
    let section_size: u64 = if wide { 64 } else { 40 };
    let strings_at: u64 = 64;
    let mut padded = strings.to_vec();
    while padded.len() % 8 != 0 {
        padded.push(0);
    }
    let dynamic_at = strings_at + padded.len() as u64;
    let dynamic_size = (dynamic.len() * 2 * word) as u64;
    let table_at = dynamic_at + dynamic_size;

    let mut out: Vec<u8> = vec![0x7f, b'E', b'L', b'F'];
    out.push(if wide { 2 } else { 1 });
    out.push(if big { 2 } else { 1 });
    out.push(1);
    out.resize(16, 0);
    put_word(&mut out, 3, 2, big);
    put_word(&mut out, 62, 2, big);
    put_word(&mut out, 1, 4, big);
    put_word(&mut out, 0, word, big);
    put_word(&mut out, 0, word, big);
    put_word(&mut out, table_at, word, big);
    put_word(&mut out, 0, 4, big);
    put_word(&mut out, header_size, 2, big);
    put_word(&mut out, 0, 2, big);
    put_word(&mut out, 0, 2, big);
    put_word(&mut out, section_size, 2, big);
    put_word(&mut out, 3, 2, big);
    put_word(&mut out, 2, 2, big);
    out.resize(64, 0);
    out.extend_from_slice(&padded);
    for (tag, value) in dynamic {
        put_word(&mut out, *tag, word, big);
        put_word(&mut out, *value, word, big);
    }
    section_header(&mut out, wide, big, 0, 0, 0, 0);
    section_header(&mut out, wide, big, 6, dynamic_at, dynamic_size, (2 * word) as u64);
    section_header(&mut out, wide, big, 3, strings_at, padded.len() as u64, 0);
    out
}

/// A copy of `data` that starts at an address divisible by eight.
fn aligned(data: &[u8]) -> (Vec<u8>, usize) {
    let mut room = vec![0u8; data.len() + 8];
    let shift = room.as_ptr().align_offset(8);
    room[shift..shift + data.len()].copy_from_slice(data);
    (room, shift)
}

fn by_object_64(data: &[u8]) -> Vec<DynamicEntry> {
    let header = FileHeader64::<Endianness>::parse(data).unwrap();
    let endian = header.endian().unwrap();
    let sections = header.sections(endian, data).unwrap();
    let (entries, _) = sections.dynamic(endian, data).unwrap().unwrap();
    entries
        .iter()
        .map(|e| DynamicEntry { tag: e.d_tag(endian), value: e.d_val(endian) })
        .collect()
}

fn by_object_32(data: &[u8]) -> Vec<DynamicEntry> {
    let header = FileHeader32::<Endianness>::parse(data).unwrap();
    let endian = header.endian().unwrap();
    let sections = header.sections(endian, data).unwrap();
    let (entries, _) = sections.dynamic(endian, data).unwrap().unwrap();
    entries
        .iter()
        .map(|e| DynamicEntry { tag: e.d_tag(endian).into(), value: e.d_val(endian).into() })
        .collect()
}

fn by_library(data: &[u8]) -> Vec<DynamicEntry> {
    let object = decode_header(data, classify(data)).unwrap();
    let section = find_dynamic_section(&object).unwrap();
    let header = object.header();
    decode_entries(section, header.word, header.order)
}

fn sample_entries() -> Vec<(u64, u64)> {
    vec![
        (DT_NEEDED, 0),
        (14, 77),
        (DT_NEEDED, 10),
        (DT_STRTAB, 64),
        (DT_STRSZ, 20),
        (0x6fff_fffe, 0x1234_5678),
        (DT_NEEDED, 10),
    ]
}

#[test]
fn tag_constants_are_those_of_object() {
    assert_eq!(DT_NULL, u64::from(object::elf::DT_NULL));
    assert_eq!(DT_NEEDED, u64::from(object::elf::DT_NEEDED));
    assert_eq!(DT_STRTAB, u64::from(object::elf::DT_STRTAB));
    assert_eq!(DT_STRSZ, u64::from(object::elf::DT_STRSZ));
    assert_eq!(SHT_DYNAMIC, u64::from(object::elf::SHT_DYNAMIC));
}

#[test]
fn entries_agree_with_object_64_little() {
    let data = full_object(true, false, b"libfoo.so\0libbar.so\0", &sample_entries());
    let (room, shift) = aligned(&data);
    let data = &room[shift..shift + data.len()];
    assert_eq!(classify(data), FileClass::Elf64);
    assert_eq!(by_library(data), by_object_64(data));
    assert_eq!(by_library(data).len(), 7);
}

#[test]
fn entries_agree_with_object_64_big() {
    let data = full_object(true, true, b"libfoo.so\0libbar.so\0", &sample_entries());
    let (room, shift) = aligned(&data);
    let data = &room[shift..shift + data.len()];
    let object = decode_header(data, FileClass::Elf64).unwrap();
    assert_eq!(object.header().order, ByteOrder::Big);
    assert_eq!(by_library(data), by_object_64(data));
}

#[test]
fn entries_agree_with_object_32_little() {
    let data = full_object(false, false, b"libfoo.so\0libbar.so\0", &sample_entries());
    let (room, shift) = aligned(&data);
    let data = &room[shift..shift + data.len()];
    assert_eq!(classify(data), FileClass::Elf32);
    assert_eq!(by_library(data), by_object_32(data));
}

#[test]
fn entries_agree_with_object_32_big() {
    let data = full_object(false, true, b"libfoo.so\0libbar.so\0", &sample_entries());
    let (room, shift) = aligned(&data);
    let data = &room[shift..shift + data.len()];
    assert_eq!(by_library(data), by_object_32(data));
}

#[test]
fn entries_agree_with_object_up_to_the_terminator() {
    let mut entries = sample_entries();
    entries.push((DT_NULL, 0));
    entries.push((DT_NEEDED, 3));
    let data = full_object(true, false, b"libfoo.so\0libbar.so\0", &entries);
    let (room, shift) = aligned(&data);
    let data = &room[shift..shift + data.len()];
    let theirs = by_object_64(data);
    let mine = by_library(data);
    assert_eq!(theirs.len(), 9);
    assert_eq!(mine.len(), 7);
    assert_eq!(mine[..], theirs[..7]);
    assert_eq!(theirs[7].tag, DT_NULL);
}

#[test]
fn names_agree_with_object_string_table() {
    let strings = b"libfoo.so\0libbar.so\0";
    let data = full_object(true, false, strings, &sample_entries());
    let found = get_needed_libs(&data).unwrap();
    let table = StringTable::new(&data[..], 64, 84);
    let theirs: Vec<String> = [0u32, 10, 10]
        .iter()
        .map(|offset| String::from_utf8_lossy(table.get(*offset).unwrap()).to_string())
        .collect();
    assert_eq!(found.libs, theirs);
    assert_eq!(found.libs, vec!["libfoo.so", "libbar.so", "libbar.so"]);
    assert!(found.skipped.is_empty());
}
