//! Tests for the COFF object reader on hand-assembled object files.

use bfbb_linker::coff::ObjectFile;

fn push_u16(v: &mut Vec<u8>, x: u16) {
    v.extend_from_slice(&x.to_le_bytes());
}

fn push_u32(v: &mut Vec<u8>, x: u32) {
    v.extend_from_slice(&x.to_le_bytes());
}

/// A small object: one `.text` section with 8 data bytes and one
/// relocation, a function symbol with one auxiliary record, and a STATIC
/// symbol whose name lives in the string table.
fn sample_object() -> Vec<u8> {
    let mut v = Vec::new();
    // File header (20 bytes).
    push_u16(&mut v, 0x14C); // machine: i386
    push_u16(&mut v, 1); // one section
    push_u32(&mut v, 0); // timestamp
    push_u32(&mut v, 78); // symbol table offset
    push_u32(&mut v, 3); // three symbol records (one auxiliary)
    push_u16(&mut v, 0); // no optional header
    push_u16(&mut v, 0); // characteristics

    // Section header (40 bytes at offset 20).
    v.extend_from_slice(b".text\0\0\0");
    push_u32(&mut v, 0); // virtual size
    push_u32(&mut v, 0); // virtual address
    push_u32(&mut v, 8); // size of raw data
    push_u32(&mut v, 60); // pointer to raw data
    push_u32(&mut v, 68); // pointer to relocations
    push_u32(&mut v, 0); // pointer to line numbers
    push_u16(&mut v, 1); // one relocation
    push_u16(&mut v, 0); // no line numbers
    push_u32(&mut v, 0x60000020); // characteristics

    // Raw data (8 bytes at offset 60).
    v.extend_from_slice(&[10, 11, 12, 13, 14, 15, 16, 17]);

    // Relocation (10 bytes at offset 68).
    push_u32(&mut v, 4); // site offset within the section
    push_u32(&mut v, 0); // symbol table index
    push_u16(&mut v, 20); // REL32

    // Symbol table (3 records of 18 bytes at offset 78).
    // Record 0: "foo", value 5, section 1, function, EXTERNAL, 1 aux.
    v.extend_from_slice(b"foo\0\0\0\0\0");
    push_u32(&mut v, 5);
    push_u16(&mut v, 1);
    push_u16(&mut v, 0x20);
    v.push(2);
    v.push(1);
    // Record 1: auxiliary, skipped by the reader.
    v.extend_from_slice(&[0xEE; 18]);
    // Record 2: long name at string-table offset 4, STATIC in section 1.
    push_u32(&mut v, 0);
    push_u32(&mut v, 4);
    push_u32(&mut v, 0);
    push_u16(&mut v, 1);
    push_u16(&mut v, 0);
    v.push(3);
    v.push(0);

    // String table (at offset 132): its length word, then the name.
    push_u32(&mut v, 4 + 11);
    v.extend_from_slice(b"alongname\0\0");
    v
}

#[test]
fn parses_sections_symbols_and_relocations() {
    let obj = ObjectFile::new("sample.o".to_string(), sample_object()).unwrap();
    assert_eq!(obj.filename, "sample.o");

    assert_eq!(obj.coff.sections.len(), 1);
    let sec = &obj.coff.sections[0];
    assert_eq!(sec.name, b".text\0\0\0".to_vec());
    assert_eq!(sec.size_of_raw_data, 8);
    assert_eq!(sec.data, vec![10, 11, 12, 13, 14, 15, 16, 17]);
    assert_eq!(sec.relocations.len(), 1);
    assert_eq!(sec.relocations[0].virtual_address, 4);
    assert_eq!(sec.relocations[0].symbol_table_index, 0);
    assert_eq!(sec.relocations[0].typ, 20);

    // The auxiliary record is skipped; the long name is resolved.
    assert_eq!(obj.coff.symbols.len(), 2);
    let foo = &obj.coff.symbols[0];
    assert_eq!(foo.index, 0);
    assert_eq!(foo.name, b"foo".to_vec());
    assert_eq!(foo.value, 5);
    assert_eq!(foo.section_number, 1);
    assert_eq!(foo.typ, 0x20);
    assert_eq!(foo.storage_class, 2);
    let long = &obj.coff.symbols[1];
    assert_eq!(long.index, 2);
    assert_eq!(long.name, b"alongname".to_vec());
    assert_eq!(long.storage_class, 3);
}

#[test]
fn rejects_truncated_object() {
    let bytes = sample_object();
    assert!(ObjectFile::new("t.o".to_string(), bytes[..10].to_vec()).is_err());
}

#[test]
fn rejects_symbol_with_bad_section_number() {
    let mut bytes = sample_object();
    // Record 0's section number lives at offset 78 + 12.
    bytes[90] = 9;
    assert!(ObjectFile::new("bad.o".to_string(), bytes).is_err());
}

#[test]
fn rejects_raw_data_out_of_bounds() {
    let mut bytes = sample_object();
    // The section's size_of_raw_data at offset 20 + 16.
    bytes[36] = 0xFF;
    bytes[37] = 0xFF;
    assert!(ObjectFile::new("big.o".to_string(), bytes).is_err());
}

#[test]
fn out_of_bounds_relocation_table_is_empty() {
    let mut bytes = sample_object();
    // Move the relocation pointer (offset 20 + 24) past the end.
    bytes[44] = 0xFF;
    bytes[45] = 0xFF;
    let obj = ObjectFile::new("norel.o".to_string(), bytes).unwrap();
    assert_eq!(obj.coff.sections[0].relocations.len(), 0);
}
