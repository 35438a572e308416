//! End-to-end tests of the linking engine: combining mod sections,
//! resolving symbols, evaluating relocations, and applying patches.

use bfbb_linker::coff::{Coff, CoffRelocation, CoffSection, CoffSymbol, ObjectFile};
use bfbb_linker::config::Configuration;
use bfbb_linker::error::{Error, PatchError};
use bfbb_linker::inject;
use bfbb_linker::patch::Patch;
use bfbb_linker::reloc::{SectionMap, SymbolTable};
use bfbb_linker::xbe::raw::{LibraryVersion, LogoBitmap};
use bfbb_linker::xbe::{
    Header, Section, Xbe, PE, SECTION_FLAG_EXECUTABLE, SECTION_FLAG_PRELOAD,
};

fn base_xbe() -> Xbe {
    let header = Header {
        digital_signature: None,
        debug_pathname: vec![0x43, 0x3A, 0x5C, 0x67, 0x00],
        debug_filename: vec![0x67, 0x00],
        debug_unicode_filename: vec![0x67, 0x00],
        image_time_date: 0,
        entry_point: 0x11000,
        tls_address: 0,
        pe: PE {
            stack_commit: 0,
            heap_reserve: 0,
            head_commit: 0,
            base_address: 0x10000,
            size_of_image: 0,
            checksum: 0,
            timedate: 0,
        },
        kernel_image_thunk_address: 0,
        cert_time_date: 0,
        title_id: Some(1),
        title_name: vec![0; 0x50],
        allowed_media: 1,
        game_ratings: Some(0),
        game_region: 1,
        cert_version: 1,
        lan_key: None,
        signature_key: None,
        alternate_signature_keys: None,
        unknown: vec![0; 0x1C],
    };
    let kernel = LibraryVersion {
        library_name: vec![0x58, 0x42, 0x4F, 0x58, 0x4B, 0x52, 0x4E, 0x4C],
        major_version: 1,
        minor_version: 0,
        build_version: 5933,
        library_flags: 0,
    };
    let xapi = LibraryVersion {
        library_name: vec![0x58, 0x41, 0x50, 0x49, 0x4C, 0x49, 0x42, 0x00],
        major_version: 1,
        minor_version: 0,
        build_version: 5933,
        library_flags: 0,
    };
    let text = Section {
        name: vec![0x2E, 0x74, 0x65, 0x78, 0x74, 0x00],
        flags: SECTION_FLAG_PRELOAD | SECTION_FLAG_EXECUTABLE,
        data: vec![0x90; 0x20],
        virtual_address: 0x11000,
        virtual_size: 0x20,
        raw_address: 0x1000,
        digest: None,
    };
    Xbe {
        header,
        sections: vec![text],
        library_versions: vec![kernel, xapi],
        logo_bitmap: LogoBitmap { bitmap: vec![] },
    }
}

fn text_section(data: Vec<u8>, relocations: Vec<CoffRelocation>) -> CoffSection {
    CoffSection {
        name: vec![0x2E, 0x74, 0x65, 0x78, 0x74, 0x00, 0x00, 0x00],
        size_of_raw_data: data.len() as u32,
        pointer_to_raw_data: 0,
        data,
        relocations,
    }
}

fn symbol(index: u32, name: &str, value: u32, section_number: u16, typ: u16, class: u8) -> CoffSymbol {
    CoffSymbol {
        index,
        name: name.as_bytes().to_vec(),
        value,
        section_number,
        typ,
        storage_class: class,
        number_of_aux_symbols: 0,
    }
}

fn object(filename: &str, sections: Vec<CoffSection>, symbols: Vec<CoffSymbol>) -> ObjectFile {
    ObjectFile {
        filename: filename.to_string(),
        bytes: Vec::new(),
        coff: Coff { sections, symbols },
    }
}

fn read_u32(bytes: &[u8], off: usize) -> u32 {
    bytes[off] as u32
        | (bytes[off + 1] as u32) << 8
        | (bytes[off + 2] as u32) << 16
        | (bytes[off + 3] as u32) << 24
}

fn find_section<'a>(x: &'a Xbe, name: &[u8]) -> &'a Section {
    x.sections.iter().find(|s| s.name == name).unwrap()
}

#[test]
fn mods_become_appended_sections() {
    // One mod and no patches: the output holds exactly the base sections
    // plus the sections derived from the mod, everything else unchanged.
    let mod_obj = object(
        "mod.o",
        vec![text_section(vec![0xAA; 8], vec![])],
        vec![symbol(0, "foo", 0, 1, 0x20, 2)],
    );
    let config = Configuration::new(vec![], vec![mod_obj]);
    let base = base_xbe();
    let base_bytes = base.serialize().unwrap();
    let out = inject(config, base).unwrap();

    assert_eq!(out.sections.len(), 2);
    let mtext = find_section(&out, &[0x2E, 0x6D, 0x74, 0x65, 0x78, 0x74, 0x00]);
    assert_eq!(mtext.virtual_address, 0x11020);
    assert_eq!(mtext.virtual_size, 8);
    assert_eq!(mtext.data, vec![0xAA; 8]);
    // The base section is untouched.
    assert_eq!(out.sections[0].data, vec![0x90; 0x20]);
    // The original image still serializes to the same bytes.
    let untouched = Xbe::new(&base_bytes).unwrap();
    assert_eq!(untouched.serialize().unwrap(), base_bytes);
}

#[test]
fn rel32_to_static_symbol_in_same_file() {
    // A REL32 relocation to a STATIC symbol defined in the same file: the
    // emitted value is S - (site + 4), with S the section start (a STATIC
    // symbol's value is not added).
    let reloc = CoffRelocation { virtual_address: 4, symbol_table_index: 0, typ: 20 };
    let mod_obj = object(
        "mod.o",
        vec![text_section(vec![0; 8], vec![reloc])],
        vec![symbol(0, "start_of_text", 7, 1, 0, 3)],
    );
    let config = Configuration::new(vec![], vec![mod_obj]);
    let out = inject(config, base_xbe()).unwrap();

    let mtext = find_section(&out, &[0x2E, 0x6D, 0x74, 0x65, 0x78, 0x74, 0x00]);
    let s = 0x11020u32; // section start; the symbol's value 7 is ignored
    let site_va = s + 4;
    let expected = s.wrapping_sub(site_va + 4);
    assert_eq!(read_u32(&mtext.data, 4), expected);
    assert_eq!(expected, 0xFFFF_FFF8);
}

#[test]
fn rel32_across_files_and_dir32_addend() {
    // File A defines foo; file B calls foo through a REL32 site and also
    // takes its absolute address through a DIR32 site with a prior
    // addend.
    let a = object(
        "a.o",
        vec![text_section(vec![0x11; 4], vec![])],
        vec![symbol(0, "foo", 0, 1, 0x20, 2)],
    );
    let rel = CoffRelocation { virtual_address: 4, symbol_table_index: 1, typ: 20 };
    let dir = CoffRelocation { virtual_address: 0, symbol_table_index: 1, typ: 6 };
    let mut b_data = vec![0u8; 8];
    b_data[0] = 0x10; // DIR32 prior addend 0x10
    let b = object(
        "b.o",
        vec![text_section(b_data, vec![rel, dir])],
        vec![
            symbol(0, "bar", 0, 1, 0x20, 2),
            symbol(1, "foo", 0, 0, 0x20, 2), // undefined external
        ],
    );
    let config = Configuration::new(vec![], vec![a, b]);
    let out = inject(config, base_xbe()).unwrap();

    let mtext = find_section(&out, &[0x2E, 0x6D, 0x74, 0x65, 0x78, 0x74, 0x00]);
    assert_eq!(mtext.data.len(), 12);
    let s = 0x11020u32; // foo: offset 0 of a.o's contribution
    // REL32 in b.o at file offset 4, so builder offset 8.
    let p = 8 + s + 4;
    assert_eq!(read_u32(&mtext.data, 8), s.wrapping_sub(p));
    // DIR32 in b.o at builder offset 4, prior addend 0x10.
    assert_eq!(read_u32(&mtext.data, 4), s.wrapping_add(0x10));
}

#[test]
fn discarded_sections_are_ignored() {
    // A .drectve section contributes no bytes and its relocations are
    // skipped rather than failing the link.
    let drectve = CoffSection {
        name: vec![0x2E, 0x64, 0x72, 0x65, 0x63, 0x74, 0x76, 0x65],
        size_of_raw_data: 4,
        pointer_to_raw_data: 0,
        data: vec![1, 2, 3, 4],
        relocations: vec![CoffRelocation { virtual_address: 0, symbol_table_index: 99, typ: 20 }],
    };
    let mod_obj = object(
        "mod.o",
        vec![drectve, text_section(vec![0xBB; 4], vec![])],
        vec![symbol(0, "foo", 0, 2, 0x20, 2)],
    );
    let config = Configuration::new(vec![], vec![mod_obj]);
    let out = inject(config, base_xbe()).unwrap();

    assert_eq!(out.sections.len(), 2);
    let mtext = find_section(&out, &[0x2E, 0x6D, 0x74, 0x65, 0x78, 0x74, 0x00]);
    assert_eq!(mtext.data, vec![0xBB; 4]);
}

fn patch_object() -> ObjectFile {
    object(
        "patch.o",
        vec![text_section(vec![0xE9, 1, 2, 3, 4], vec![])],
        vec![
            symbol(0, "_framehook_patch", 0, 1, 0x20, 2),
            symbol(1, "_framehook_patch_end", 5, 1, 0, 2),
        ],
    )
}

#[test]
fn patch_overwrites_target_range() {
    let patch = Patch::new(
        patch_object(),
        "_framehook_patch".to_string(),
        "_framehook_patch_end".to_string(),
        0x11008,
    );
    let config = Configuration::new(vec![patch], vec![]);
    let out = inject(config, base_xbe()).unwrap();
    let b = out.get_bytes(0x11008, 0x1100D).unwrap();
    assert_eq!(b, &[0xE9, 1, 2, 3, 4]);
    // Bytes around the window are untouched.
    assert_eq!(out.get_bytes(0x11000, 0x11008).unwrap(), &[0x90; 8]);
}

#[test]
fn patch_outside_image_is_invalid_address() {
    // Two patches; the second one's virtual address lies outside every
    // section of the base image.
    let p1 = Patch::new(
        patch_object(),
        "_framehook_patch".to_string(),
        "_framehook_patch_end".to_string(),
        0x11008,
    );
    let p2 = Patch::new(
        patch_object(),
        "_framehook_patch".to_string(),
        "_framehook_patch_end".to_string(),
        0x99999999,
    );
    let config = Configuration::new(vec![p1, p2], vec![]);
    let r = inject(config, base_xbe());
    match r {
        Err(Error::Patch(_, PatchError::InvalidAddress(a))) => assert_eq!(a, 0x99999999),
        other => panic!("unexpected result: {:?}", other.map(|_| ())),
    }
}

#[test]
fn patch_section_mismatch_changes_nothing() {
    // Start and end symbols in different sections: the patch fails with a
    // section mismatch and the image is untouched.
    let data_sec = CoffSection {
        name: vec![0x2E, 0x64, 0x61, 0x74, 0x61, 0x00, 0x00, 0x00],
        size_of_raw_data: 4,
        pointer_to_raw_data: 0,
        data: vec![0; 4],
        relocations: vec![],
    };
    let obj = object(
        "patch.o",
        vec![text_section(vec![0xE9, 1, 2, 3, 4], vec![]), data_sec],
        vec![
            symbol(0, "_framehook_patch", 0, 1, 0x20, 2),
            symbol(1, "_framehook_patch_end", 4, 2, 0, 2),
        ],
    );
    let patch = Patch::new(
        obj,
        "_framehook_patch".to_string(),
        "_framehook_patch_end".to_string(),
        0x11008,
    );
    let mut xbe = base_xbe();
    let before = xbe.serialize().unwrap();
    let table = SymbolTable::empty();
    let r = patch.apply(&mut xbe, &table);
    match r {
        Err(Error::Patch(_, PatchError::SectionMismatch)) => (),
        other => panic!("unexpected result: {:?}", other),
    }
    assert_eq!(xbe.serialize().unwrap(), before);
}

#[test]
fn patch_undefined_symbol() {
    let patch = Patch::new(
        patch_object(),
        "_missing".to_string(),
        "_framehook_patch_end".to_string(),
        0x11008,
    );
    let mut xbe = base_xbe();
    let table = SymbolTable::empty();
    match patch.apply(&mut xbe, &table) {
        Err(Error::Patch(_, PatchError::UndefinedSymbol(n))) => assert_eq!(n, "_missing"),
        other => panic!("unexpected result: {:?}", other),
    }
}

#[test]
fn mod_definition_shadows_patch_symbol() {
    // A patch file and a mod file both define the EXTERNAL symbol
    // "shared": the mod's address wins, because patches are resolved
    // first.
    let patch = Patch::new(
        object(
            "patch.o",
            vec![text_section(vec![0; 4], vec![])],
            vec![symbol(0, "shared", 0, 1, 0x20, 2)],
        ),
        "shared".to_string(),
        "end".to_string(),
        396158,
    );
    let mod_obj = object(
        "mod.o",
        vec![text_section(vec![0; 4], vec![])],
        vec![symbol(0, "shared", 0, 1, 0x20, 2)],
    );
    let config = Configuration::new(vec![patch], vec![mod_obj]);
    let map = SectionMap::from_data(std::slice::from_ref(&config.modfiles[0]));
    let table = SymbolTable::new(&map, &config).unwrap();
    // The patch pass would give "shared" the configured address 396158;
    // the mod pass overwrites it with the mod's own location (offset 0 of
    // an unassigned builder).
    assert_eq!(table.get(b"shared"), Some(0));
}

#[test]
fn unsupported_storage_class_fails() {
    let mod_obj = object(
        "mod.o",
        vec![text_section(vec![0; 4], vec![])],
        vec![symbol(0, "weird", 0, 1, 0, 42)],
    );
    let config = Configuration::new(vec![], vec![mod_obj]);
    match inject(config, base_xbe()) {
        Err(Error::UnsupportedStorageClass(f, c)) => {
            assert_eq!(f, "mod.o");
            assert_eq!(c, 42);
        },
        other => panic!("unexpected result: {:?}", other.map(|_| ())),
    }
}

#[test]
fn unsupported_relocation_type_fails() {
    let reloc = CoffRelocation { virtual_address: 0, symbol_table_index: 0, typ: 7 };
    let mod_obj = object(
        "mod.o",
        vec![text_section(vec![0; 4], vec![reloc])],
        vec![symbol(0, "foo", 0, 1, 0x20, 2)],
    );
    let config = Configuration::new(vec![], vec![mod_obj]);
    assert!(matches!(
        inject(config, base_xbe()),
        Err(Error::Relocation(_, _))
    ));
}

#[test]
fn mtext_is_stable_across_runs() {
    // Linking the same inputs twice yields identical section bytes.
    let build = || {
        let a = object(
            "a.o",
            vec![text_section(vec![0x11; 4], vec![])],
            vec![symbol(0, "foo", 0, 1, 0x20, 2)],
        );
        let rel = CoffRelocation { virtual_address: 0, symbol_table_index: 1, typ: 20 };
        let b = object(
            "b.o",
            vec![text_section(vec![0; 4], vec![rel])],
            vec![
                symbol(0, "bar", 0, 1, 0x20, 2),
                symbol(1, "foo", 0, 0, 0x20, 2),
            ],
        );
        let config = Configuration::new(vec![], vec![a, b]);
        inject(config, base_xbe()).unwrap().serialize().unwrap()
    };
    assert_eq!(build(), build());
}

#[test]
fn relocation_to_unresolved_symbol_fails() {
    // A REL32 site whose target symbol never gets an address.
    let rel = CoffRelocation { virtual_address: 0, symbol_table_index: 1, typ: 20 };
    let mod_obj = object(
        "mod.o",
        vec![text_section(vec![0; 4], vec![rel])],
        vec![
            symbol(0, "bar", 0, 1, 0x20, 2),
            symbol(1, "nowhere", 0, 0, 0x20, 2),
        ],
    );
    let config = Configuration::new(vec![], vec![mod_obj]);
    assert!(matches!(
        inject(config, base_xbe()),
        Err(Error::Relocation(_, _))
    ));
}

#[test]
fn empty_configuration_leaves_image_unchanged() {
    let config = Configuration::new(vec![], vec![]);
    let base = base_xbe();
    let before = base.serialize().unwrap();
    let out = inject(config, base).unwrap();
    assert_eq!(out.serialize().unwrap(), before);
}
