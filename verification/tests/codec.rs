//! Tests for the XBE container codec: byte-identical round trips and the
//! virtual/raw address arithmetic of appended sections.

use bfbb_linker::xbe::raw::{LibraryVersion, LogoBitmap};
use bfbb_linker::xbe::{
    Header, Section, Xbe, PE, SECTION_FLAG_EXECUTABLE, SECTION_FLAG_PRELOAD, SECTION_FLAG_WRITABLE,
};

fn base_pe() -> PE {
    PE {
        stack_commit: 0x10000,
        heap_reserve: 0x20000,
        head_commit: 0x30000,
        base_address: 0x10000,
        size_of_image: 0x40000,
        checksum: 0,
        timedate: 0x1234,
    }
}

fn base_xbe() -> Xbe {
    let header = Header {
        digital_signature: None,
        // "C:\g" with a NUL terminator; the backslash is required.
        debug_pathname: vec![0x43, 0x3A, 0x5C, 0x67, 0x00],
        debug_filename: vec![0x67, 0x00],
        debug_unicode_filename: vec![0x67, 0x00],
        image_time_date: 0x5555,
        entry_point: 0x11000,
        tls_address: 0,
        pe: base_pe(),
        kernel_image_thunk_address: 0x80000000,
        cert_time_date: 0x6666,
        title_id: Some(0x4C41_0001),
        title_name: vec![0; 0x50],
        allowed_media: 1,
        game_ratings: Some(0),
        game_region: 1,
        cert_version: 1,
        lan_key: None,
        signature_key: None,
        alternate_signature_keys: None,
        unknown: vec![0; 0x1C],
    };
    let kernel = LibraryVersion {
        library_name: vec![0x58, 0x42, 0x4F, 0x58, 0x4B, 0x52, 0x4E, 0x4C],
        major_version: 1,
        minor_version: 0,
        build_version: 5933,
        library_flags: 0,
    };
    let xapi = LibraryVersion {
        library_name: vec![0x58, 0x41, 0x50, 0x49, 0x4C, 0x49, 0x42, 0x00],
        major_version: 1,
        minor_version: 0,
        build_version: 5933,
        library_flags: 0,
    };
    let text = Section {
        name: vec![0x2E, 0x74, 0x65, 0x78, 0x74, 0x00],
        flags: SECTION_FLAG_PRELOAD | SECTION_FLAG_EXECUTABLE,
        data: vec![0x90; 0x20],
        virtual_address: 0x11000,
        virtual_size: 0x20,
        raw_address: 0x1000,
        digest: None,
    };
    Xbe {
        header,
        sections: vec![text],
        library_versions: vec![kernel, xapi],
        logo_bitmap: LogoBitmap { bitmap: vec![0xAA, 0xBB] },
    }
}

#[test]
fn vanilla_serialization() {
    // An image that goes through load must serialize back to the same
    // bytes.
    let bytes = base_xbe().serialize().unwrap();
    let reloaded = Xbe::new(&bytes).unwrap();
    let bytes2 = reloaded.serialize().unwrap();
    assert_eq!(bytes, bytes2);
}

#[test]
fn deserialize_and_reserialize() {
    // The same round trip at the raw on-disk level.
    let bytes = base_xbe().serialize().unwrap();
    let raw = bfbb_linker::xbe::raw::Xbe::load(&bytes).unwrap();
    let bytes2 = raw.serialize();
    assert_eq!(bytes, bytes2);
}

#[test]
fn load_rejects_bad_magic() {
    let mut bytes = base_xbe().serialize().unwrap();
    bytes[0] = 0x59;
    assert!(Xbe::new(&bytes).is_err());
}

#[test]
fn load_rejects_truncated_image() {
    let bytes = base_xbe().serialize().unwrap();
    assert!(Xbe::new(&bytes[..0x100]).is_err());
}

#[test]
fn next_virtual_address_math() {
    let x = base_xbe();
    // One section [0x11000, 0x11020) and 0x11020 is 32-byte aligned.
    assert_eq!(x.get_next_virtual_address(), 0x11020);
    assert_eq!(x.get_next_virtual_address_after(5), 0x20);
    assert_eq!(x.get_next_virtual_address_after(0x20), 0x20);
    assert_eq!(x.get_next_virtual_address_after(0x21), 0x40);
}

#[test]
fn appended_sections_stay_sorted_aligned_and_disjoint() {
    let mut x = base_xbe();
    let va1 = x.get_next_virtual_address();
    x.add_section(
        vec![0x2E, 0x6D, 0x74, 0x65, 0x78, 0x74, 0x00],
        SECTION_FLAG_PRELOAD | SECTION_FLAG_EXECUTABLE,
        vec![0xCC; 0x30],
        va1,
        0x30,
    );
    let va2 = x.get_next_virtual_address();
    x.add_section(
        vec![0x2E, 0x6D, 0x64, 0x61, 0x74, 0x61, 0x00],
        SECTION_FLAG_PRELOAD | SECTION_FLAG_WRITABLE,
        vec![0xDD; 0x11],
        va2,
        0x11,
    );

    // Iteration by virtual address is strictly monotonic and the ranges
    // are disjoint.
    for w in x.sections.windows(2) {
        assert!(w[0].virtual_address < w[1].virtual_address);
        assert!(w[0].virtual_address + w[0].virtual_size <= w[1].virtual_address);
    }
    // Every appended section is 32-byte aligned in its virtual address
    // and 0x1000-aligned in its raw address.
    for s in &x.sections[1..] {
        assert_eq!(s.virtual_address % 0x20, 0);
        assert_eq!(s.raw_address() % 0x1000, 0);
    }
    // The raw addresses follow the existing sections.
    assert_eq!(x.sections[1].raw_address(), 0x2000);
    assert_eq!(x.sections[2].raw_address(), 0x3000);

    // The grown image still round-trips byte-for-byte.
    let bytes = x.serialize().unwrap();
    let reloaded = Xbe::new(&bytes).unwrap();
    assert_eq!(bytes, reloaded.serialize().unwrap());
}

#[test]
fn get_bytes_reads_section_data() {
    let x = base_xbe();
    let b = x.get_bytes(0x11000, 0x11004).unwrap();
    assert_eq!(b, &[0x90, 0x90, 0x90, 0x90]);
    // A range no single section covers yields nothing.
    assert!(x.get_bytes(0x10FFF, 0x11004).is_none());
    assert!(x.get_bytes(0x20000, 0x20004).is_none());
}

#[test]
fn write_bytes_overwrites_in_place() {
    let mut x = base_xbe();
    assert!(x.write_bytes(0x11002, &[1, 2, 3]));
    let b = x.get_bytes(0x11000, 0x11008).unwrap();
    assert_eq!(b, &[0x90, 0x90, 1, 2, 3, 0x90, 0x90, 0x90]);
    // A write outside every section changes nothing.
    let before = x.serialize().unwrap();
    assert!(!x.write_bytes(0x20000, &[9]));
    assert_eq!(before, x.serialize().unwrap());
}
