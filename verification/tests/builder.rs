//! Tests for the section builder: recorded file offsets, accumulated
//! bytes, and in-place 32-bit updates.

use bfbb_linker::reloc::SectionBuilder;

fn collect_range(a: u8, b: u8) -> Vec<u8> {
    let mut v = Vec::new();
    let mut x = a;
    while x < b {
        v.push(x);
        x += 1;
    }
    v
}

#[test]
fn file_offsets() {
    let mut section = SectionBuilder::new("test".to_string());
    section.add_bytes(&collect_range(0, 12), "bytesA");
    section.add_bytes(&collect_range(0, 8), "bytesB");

    assert_eq!(section.file_offset_start.len(), 2);
    assert_eq!(section.file_offset("bytesA").unwrap(), 0);
    assert_eq!(section.file_offset("bytesB").unwrap(), 12);
}

#[test]
fn add_bytes() {
    let mut section = SectionBuilder::new("test".to_string());
    section.add_bytes(&collect_range(0, 12), "bytesA");
    section.add_bytes(&collect_range(0, 8), "bytesB");

    assert_eq!(section.bytes.len(), 20);
    let mut expected = collect_range(0, 12);
    expected.extend_from_slice(&collect_range(0, 8));
    assert_eq!(section.bytes, expected);
}

#[test]
fn relative_update() {
    let mut section = SectionBuilder::new("test".to_string());
    section.add_bytes(&collect_range(0, 12), "bytesA");
    section.add_bytes(&collect_range(0, 8), "bytesB");

    section.relative_update_u32("bytesB", 0, 0x100).unwrap();
    assert_eq!(
        section.bytes,
        vec![0, 1, 2, 3, 4, 5, 6, 7, 8, 9, 10, 11, 0, 2, 2, 3, 4, 5, 6, 7]
    );
}

#[test]
fn builder_offsets_are_prefix_sums() {
    let mut section = SectionBuilder::new("acc".to_string());
    let blocks: [usize; 4] = [3, 5, 1, 7];
    let names = ["f0", "f1", "f2", "f3"];
    let mut sum = 0u32;
    for (i, len) in blocks.iter().enumerate() {
        let data = vec![0xAB_u8; *len];
        section.add_bytes(&data, names[i]);
        assert_eq!(section.file_offset(names[i]).unwrap(), sum);
        sum += *len as u32;
    }
    assert_eq!(section.bytes.len() as u32, sum);
}

#[test]
fn relative_update_wraps_modulo() {
    let mut section = SectionBuilder::new("wrap".to_string());
    // Little-endian 0xFFFF_FFFE at the start of the file's contribution.
    section.add_bytes(&[0xFE, 0xFF, 0xFF, 0xFF], "w");
    section.relative_update_u32("w", 0, 5).unwrap();
    // (0xFFFF_FFFE + 5) mod 2^32 == 3
    assert_eq!(section.bytes, vec![3, 0, 0, 0]);
}

#[test]
fn relative_update_unknown_file_fails() {
    let mut section = SectionBuilder::new("solo".to_string());
    section.add_bytes(&[0, 0, 0, 0], "present");
    let r = section.relative_update_u32("absent", 0, 1);
    assert!(r.is_err());
    // The failed update leaves the bytes alone.
    assert_eq!(section.bytes, vec![0, 0, 0, 0]);
}

#[test]
fn relative_update_out_of_range_fails() {
    let mut section = SectionBuilder::new("short".to_string());
    section.add_bytes(&[1, 2], "tiny");
    let r = section.relative_update_u32("tiny", 0, 1);
    assert!(r.is_err());
    assert_eq!(section.bytes, vec![1, 2]);
}
