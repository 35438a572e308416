//! A static linker and binary patcher for the original Xbox executable
//! format (XBE).
//!
//! Given a base XBE image, a set of COFF object files ("mods") and a set of
//! COFF objects anchored at fixed virtual addresses ("patches"), the linker
//! appends the mod code and data to the base image as fresh sections,
//! resolves symbols across all inputs, evaluates x86 relocations against the
//! assigned virtual addresses, and overwrites each patch's byte range in the
//! base image.

pub mod bytesutil;
pub mod coff;
pub mod config;
pub mod error;
pub mod patch;
pub mod reloc;
pub mod xbe;

use vstd::prelude::*;

verus! {

use crate::config::Configuration;
use crate::error::Error;
use crate::reloc::{
    combined_all, files_combine_small, raw_name_bss, raw_name_data, raw_name_rdata,
    raw_name_text, sections_combine_small, SectionMap, SymbolTable,
};
use crate::xbe::Xbe;


/// 1 when a combined output section is non-empty (and so will be
/// appended), else 0.
pub open spec fn appended_count(c: Seq<u8>) -> int {
    if c.len() > 0 {
        1
    } else {
        0
    }
}

/// The virtual-address cursor after laying out one combined section: the
/// next 32-byte boundary past it, or unchanged when nothing is appended.
pub open spec fn cursor_past(start: int, c: Seq<u8>) -> int {
    if c.len() > 0 {
        crate::bytesutil::round_up(start + c.len(), 0x20)
    } else {
        start
    }
}

/// What the driver promises of one appended output section: its name and
/// flags by kind, its data exactly as long as the inputs' combined
/// contribution, placed at the given 32-byte-aligned virtual address with
/// a 0x1000-aligned raw address.
pub open spec fn appended_output(
    s: crate::xbe::Section,
    name: Seq<u8>,
    flags: u32,
    c: Seq<u8>,
    va: int,
) -> bool {
    &&& s.name@ == name
    &&& s.flags == flags
    &&& s.data@.len() == c.len()
    &&& s.virtual_size == c.len()
    &&& s.virtual_address == va
    &&& s.virtual_address % 0x20 == 0
    &&& s.raw_address % 0x1000 == 0
    &&& s.digest is None
}



/// The section map the driver links against: each kind's builder holds
/// the inputs' combined bytes with each file's start offset, placed at
/// the layout cursor's address in ascending name order (or is absent
/// when nothing contributed).
pub open spec fn linked_map(
    m: crate::reloc::SectionMap,
    mods: Seq<crate::coff::ObjectFile>,
    s0: int,
) -> bool {
    let cb = combined_all(mods, raw_name_bss());
    let cd = combined_all(mods, raw_name_data());
    let cr = combined_all(mods, raw_name_rdata());
    let ct = combined_all(mods, raw_name_text());
    let s1 = cursor_past(s0, cb);
    let s2 = cursor_past(s1, cd);
    let s3 = cursor_past(s2, cr);
    &&& match m.mbss {
        Some(b) => b.bytes@ == cb && b.offsets() == crate::reloc::offsets_all(
            mods,
            raw_name_bss(),
        ) && b.virtual_address == s0,
        None => cb.len() == 0,
    }
    &&& match m.mdata {
        Some(b) => b.bytes@ == cd && b.offsets() == crate::reloc::offsets_all(
            mods,
            raw_name_data(),
        ) && b.virtual_address == s1,
        None => cd.len() == 0,
    }
    &&& match m.mrdata {
        Some(b) => b.bytes@ == cr && b.offsets() == crate::reloc::offsets_all(
            mods,
            raw_name_rdata(),
        ) && b.virtual_address == s2,
        None => cr.len() == 0,
    }
    &&& match m.mtext {
        Some(b) => b.bytes@ == ct && b.offsets() == crate::reloc::offsets_all(
            mods,
            raw_name_text(),
        ) && b.virtual_address == s3,
        None => ct.len() == 0,
    }
}

/// Appends the combined output sections to the image and delivers the
/// driver-level description of what was appended: one section per
/// non-empty combined kind, in ascending name order at the cursor-chain
/// addresses, with the base sections untouched.
#[verifier::rlimit(100)]
#[verifier::spinoff_prover]
fn append_combined(
    section_map: SectionMap,
    xbe: &mut Xbe,
    Ghost(mods): Ghost<Seq<crate::coff::ObjectFile>>,
)
    requires
        old(xbe).wf(),
        section_map.wf(),
        section_map.spec_assigned(*old(xbe)),
        (section_map.mbss is Some) == (combined_all(mods, raw_name_bss()).len() > 0),
        (section_map.mdata is Some) == (combined_all(mods, raw_name_data()).len() > 0),
        (section_map.mrdata is Some) == (combined_all(mods, raw_name_rdata()).len() > 0),
        (section_map.mtext is Some) == (combined_all(mods, raw_name_text()).len() > 0),
        crate::reloc::slot_len(section_map.mbss) == combined_all(mods, raw_name_bss()).len(),
        crate::reloc::slot_len(section_map.mdata) == combined_all(mods, raw_name_data()).len(),
        crate::reloc::slot_len(section_map.mrdata) == combined_all(
            mods,
            raw_name_rdata(),
        ).len(),
        crate::reloc::slot_len(section_map.mtext) == combined_all(mods, raw_name_text()).len(),
        old(xbe).sections@.len() + 4 <= 0x1000,
        old(xbe).sections@.len() > 0 ==> old(xbe).sections@.last().virtual_address < old(
            xbe
        ).spec_next_virtual_address(),
        old(xbe).spec_next_virtual_address() + section_map.total_len() + 0x80 <= u32::MAX,
        old(xbe).spec_next_raw_address() + section_map.total_len() + 0x5000 <= u32::MAX,
        crate::xbe::spec_data_blob_len(old(xbe).sections@) + section_map.total_len() + 0x4000
            <= 0x4000_0000,
    ensures
        final(xbe).wf(),
        final(xbe).header == old(xbe).header,
        final(xbe).library_versions == old(xbe).library_versions,
        final(xbe).logo_bitmap == old(xbe).logo_bitmap,
        ({
            let cb = combined_all(mods, raw_name_bss());
            let cd = combined_all(mods, raw_name_data());
            let cr = combined_all(mods, raw_name_rdata());
            let ct = combined_all(mods, raw_name_text());
            let n0 = old(xbe).sections@.len() as int;
            let s0 = old(xbe).spec_next_virtual_address();
            let s1 = cursor_past(s0, cb);
            let s2 = cursor_past(s1, cd);
            let s3 = cursor_past(s2, cr);
            &&& (section_map.mbss matches Some(b) ==> final(xbe).sections@[n0].data@
                == b.bytes@)
            &&& (section_map.mdata matches Some(b) ==> final(xbe).sections@[n0
                + appended_count(cb)].data@ == b.bytes@)
            &&& (section_map.mrdata matches Some(b) ==> final(xbe).sections@[n0
                + appended_count(cb) + appended_count(cd)].data@ == b.bytes@)
            &&& (section_map.mtext matches Some(b) ==> final(xbe).sections@[n0
                + appended_count(cb) + appended_count(cd) + appended_count(cr)].data@
                == b.bytes@)
            &&& final(xbe).sections@.len() == n0 + appended_count(cb) + appended_count(cd)
                + appended_count(cr) + appended_count(ct)
            &&& forall|j: int| 0 <= j < n0 ==> #[trigger] final(xbe).sections@[j] == old(
                xbe
            ).sections@[j]
            &&& (cb.len() > 0 ==> appended_output(
                final(xbe).sections@[n0],
                crate::reloc::mbss_name_bytes(),
                (crate::xbe::SECTION_FLAG_PRELOAD | crate::xbe::SECTION_FLAG_WRITABLE) as u32,
                cb,
                s0,
            ))
            &&& (cd.len() > 0 ==> appended_output(
                final(xbe).sections@[n0 + appended_count(cb)],
                crate::reloc::mdata_name_bytes(),
                (crate::xbe::SECTION_FLAG_PRELOAD | crate::xbe::SECTION_FLAG_WRITABLE) as u32,
                cd,
                s1,
            ))
            &&& (cr.len() > 0 ==> appended_output(
                final(xbe).sections@[n0 + appended_count(cb) + appended_count(cd)],
                crate::reloc::mrdata_name_bytes(),
                crate::xbe::SECTION_FLAG_PRELOAD as u32,
                cr,
                s2,
            ))
            &&& (ct.len() > 0 ==> appended_output(
                final(xbe).sections@[n0 + appended_count(cb) + appended_count(cd)
                    + appended_count(cr)],
                crate::reloc::mtext_name_bytes(),
                (crate::xbe::SECTION_FLAG_PRELOAD | crate::xbe::SECTION_FLAG_EXECUTABLE) as u32,
                ct,
                s3,
            ))
        }),
{
    let ghost g_map = section_map;
    proof {
        let cb = combined_all(mods, raw_name_bss());
        let cd = combined_all(mods, raw_name_data());
        let cr = combined_all(mods, raw_name_rdata());
        let ct = combined_all(mods, raw_name_text());
        let s0 = old(xbe).spec_next_virtual_address();
        assert(SectionMap::cnt(g_map.mbss) == appended_count(cb));
        assert(SectionMap::cnt(g_map.mdata) == appended_count(cd));
        assert(SectionMap::cnt(g_map.mrdata) == appended_count(cr));
        assert(SectionMap::cnt(g_map.mtext) == appended_count(ct));
        assert(SectionMap::cursor_after(s0, g_map.mbss) == cursor_past(s0, cb));
        assert(SectionMap::cursor_after(cursor_past(s0, cb), g_map.mdata) == cursor_past(
            cursor_past(s0, cb),
            cd,
        ));
        assert(SectionMap::cursor_after(cursor_past(cursor_past(s0, cb), cd), g_map.mrdata)
            == cursor_past(cursor_past(cursor_past(s0, cb), cd), cr));
    }
    section_map.finalize(xbe);
}


/// Applies every configured patch in order. The section list's shape is
/// untouched: only bytes inside patched sections change, and with no
/// patches nothing changes at all.
#[verifier::rlimit(100)]
#[verifier::spinoff_prover]
fn apply_patches(
    config: &Configuration,
    xbe: &mut Xbe,
    symbol_table: &crate::reloc::SymbolTable,
) -> (r: Result<(), Error>)
    requires
        config.wf(),
        old(xbe).wf(),
    ensures
        r is Ok ==> {
            &&& final(xbe).wf()
            &&& final(xbe).header == old(xbe).header
            &&& final(xbe).library_versions == old(xbe).library_versions
            &&& final(xbe).logo_bitmap == old(xbe).logo_bitmap
            &&& final(xbe).sections@.len() == old(xbe).sections@.len()
            &&& forall|j: int|
                0 <= j < old(xbe).sections@.len() ==> {
                    let sn = #[trigger] final(xbe).sections@[j];
                    let so = old(xbe).sections@[j];
                    &&& sn.name == so.name
                    &&& sn.flags == so.flags
                    &&& sn.virtual_address == so.virtual_address
                    &&& sn.virtual_size == so.virtual_size
                    &&& sn.raw_address == so.raw_address
                    &&& sn.digest == so.digest
                    &&& sn.data@.len() == so.data@.len()
                }
            &&& (config.patches@.len() == 0 ==> *final(xbe) == *old(xbe))
        },
        r matches Err(Error::TooLarge) ==> exists|i: int|
            0 <= i < config.patches@.len() && crate::reloc::all_data_len(
                (#[trigger] config.patches@[i]).patchfile.coff.sections@,
            ) > u32::MAX,
        r is Err ==> (r->Err_0 is Patch || r->Err_0 is Relocation || r->Err_0 is TooLarge),
{
    let np = config.patches.len();
    let mut pi: usize = 0;
    while pi < np
        invariant
            config.wf(),
            np == config.patches@.len(),
            pi <= np,
            xbe.wf(),
            xbe.header == old(xbe).header,
            xbe.library_versions == old(xbe).library_versions,
            xbe.logo_bitmap == old(xbe).logo_bitmap,
            xbe.sections@.len() == old(xbe).sections@.len(),
            forall|j: int|
                0 <= j < old(xbe).sections@.len() ==> {
                    let sn = #[trigger] xbe.sections@[j];
                    let so = old(xbe).sections@[j];
                    &&& sn.name == so.name
                    &&& sn.flags == so.flags
                    &&& sn.virtual_address == so.virtual_address
                    &&& sn.virtual_size == so.virtual_size
                    &&& sn.raw_address == so.raw_address
                    &&& sn.digest == so.digest
                    &&& sn.data@.len() == so.data@.len()
                },
            pi == 0 ==> *xbe == *old(xbe),
        decreases np - pi,
    {
        let patch = &config.patches[pi];
        if !sections_combine_small(&patch.patchfile) {
            proof {
                assert(crate::reloc::all_data_len(
                    config.patches@[pi as int].patchfile.coff.sections@,
                ) > u32::MAX);
            }
            return Err(Error::TooLarge);
        }
        match patch.apply(xbe, symbol_table) {
            Ok(()) => (),
            Err(e) => {
                return Err(e);
            },
        }
        pi = pi + 1;
    }
    Ok(())
}

/// Links the configured mod objects and patches into the base image:
/// mod sections are combined and appended at fresh virtual addresses,
/// symbols are resolved across all inputs (patches first, mods second),
/// relocations are evaluated, each patch's bytes overwrite the image at
/// its configured address, and the new sections are appended.
///
/// The returned image is structurally sound; every failure leaves a
/// structured error naming what went wrong.
#[verifier::rlimit(100)]
#[verifier::spinoff_prover]
pub fn inject(config: Configuration, xbe: Xbe) -> (r: Result<Xbe, Error>)
    requires
        config.wf(),
        xbe.wf(),
    ensures
        r matches Ok(out) ==> ({
            let mods = config.modfiles@;
            let cb = crate::reloc::combined_all(mods, crate::reloc::raw_name_bss());
            let cd = crate::reloc::combined_all(mods, crate::reloc::raw_name_data());
            let cr = crate::reloc::combined_all(mods, crate::reloc::raw_name_rdata());
            let ct = crate::reloc::combined_all(mods, crate::reloc::raw_name_text());
            let n0 = xbe.sections@.len() as int;
            let s0 = xbe.spec_next_virtual_address();
            let s1 = cursor_past(s0, cb);
            let s2 = cursor_past(s1, cd);
            let s3 = cursor_past(s2, cr);
            &&& out.wf()
            &&& out.header == xbe.header
            &&& out.library_versions == xbe.library_versions
            &&& out.logo_bitmap == xbe.logo_bitmap
            &&& out.sections@.len() == n0 + appended_count(cb) + appended_count(cd)
                + appended_count(cr) + appended_count(ct)
            &&& forall|j: int|
                0 <= j < n0 ==> {
                    let sn = #[trigger] out.sections@[j];
                    let so = xbe.sections@[j];
                    &&& sn.name == so.name
                    &&& sn.flags == so.flags
                    &&& sn.virtual_address == so.virtual_address
                    &&& sn.virtual_size == so.virtual_size
                    &&& sn.raw_address == so.raw_address
                    &&& sn.digest == so.digest
                    &&& sn.data@.len() == so.data@.len()
                }
            &&& (config.patches@.len() == 0 ==> forall|j: int|
                0 <= j < n0 ==> #[trigger] out.sections@[j] == xbe.sections@[j])
            &&& (cb.len() > 0 ==> appended_output(
                out.sections@[n0],
                crate::reloc::mbss_name_bytes(),
                (crate::xbe::SECTION_FLAG_PRELOAD | crate::xbe::SECTION_FLAG_WRITABLE) as u32,
                cb,
                s0,
            ))
            &&& (cd.len() > 0 ==> appended_output(
                out.sections@[n0 + appended_count(cb)],
                crate::reloc::mdata_name_bytes(),
                (crate::xbe::SECTION_FLAG_PRELOAD | crate::xbe::SECTION_FLAG_WRITABLE) as u32,
                cd,
                s1,
            ))
            &&& (cr.len() > 0 ==> appended_output(
                out.sections@[n0 + appended_count(cb) + appended_count(cd)],
                crate::reloc::mrdata_name_bytes(),
                crate::xbe::SECTION_FLAG_PRELOAD as u32,
                cr,
                s2,
            ))
            &&& (ct.len() > 0 ==> appended_output(
                out.sections@[n0 + appended_count(cb) + appended_count(cd)
                    + appended_count(cr)],
                crate::reloc::mtext_name_bytes(),
                (crate::xbe::SECTION_FLAG_PRELOAD | crate::xbe::SECTION_FLAG_EXECUTABLE) as u32,
                ct,
                s3,
            ))
            &&& exists|m: crate::reloc::SectionMap|
                {
                    &&& #[trigger] linked_map(m, mods, s0)
                    &&& crate::reloc::spec_build_table(m, config.patches@, mods) is Ok
                    &&& {
                        let table = crate::reloc::spec_build_table(
                            m,
                            config.patches@,
                            mods,
                        )->Ok_0;
                        &&& match m.mbss {
                            Some(b) => crate::reloc::spec_files_fold(
                                b.bytes@,
                                b.offsets(),
                                b.virtual_address,
                                table,
                                mods,
                                crate::reloc::OutputKind::Bss,
                                0,
                            ) == Ok::<Seq<u8>, ()>(out.sections@[n0].data@),
                            None => true,
                        }
                        &&& match m.mdata {
                            Some(b) => crate::reloc::spec_files_fold(
                                b.bytes@,
                                b.offsets(),
                                b.virtual_address,
                                table,
                                mods,
                                crate::reloc::OutputKind::Data,
                                0,
                            ) == Ok::<Seq<u8>, ()>(
                                out.sections@[n0 + appended_count(cb)].data@,
                            ),
                            None => true,
                        }
                        &&& match m.mrdata {
                            Some(b) => crate::reloc::spec_files_fold(
                                b.bytes@,
                                b.offsets(),
                                b.virtual_address,
                                table,
                                mods,
                                crate::reloc::OutputKind::Rdata,
                                0,
                            ) == Ok::<Seq<u8>, ()>(
                                out.sections@[n0 + appended_count(cb) + appended_count(
                                    cd,
                                )].data@,
                            ),
                            None => true,
                        }
                        &&& match m.mtext {
                            Some(b) => crate::reloc::spec_files_fold(
                                b.bytes@,
                                b.offsets(),
                                b.virtual_address,
                                table,
                                mods,
                                crate::reloc::OutputKind::Text,
                                0,
                            ) == Ok::<Seq<u8>, ()>(
                                out.sections@[n0 + appended_count(cb) + appended_count(cd)
                                    + appended_count(cr)].data@,
                            ),
                            None => true,
                        }
                    }
                }
        }),
        r matches Err(Error::UnsupportedStorageClass(f, c)) ==> exists|
            m: crate::reloc::SectionMap,
        |
            {
                &&& #[trigger] linked_map(
                    m,
                    config.modfiles@,
                    xbe.spec_next_virtual_address(),
                )
                &&& crate::reloc::spec_build_table(m, config.patches@, config.modfiles@)
                    == Err::<Map<Seq<u8>, u32>, (Seq<char>, u8)>((f@, c))
            },
        r matches Err(Error::Relocation(_, _)) ==> exists|m: crate::reloc::SectionMap|
            {
                &&& #[trigger] linked_map(
                    m,
                    config.modfiles@,
                    xbe.spec_next_virtual_address(),
                )
                &&& crate::reloc::spec_build_table(m, config.patches@, config.modfiles@) is Ok
            },
        r == Err::<Xbe, Error>(Error::TooLarge) ==> ({
            let mods = config.modfiles@;
            let cb = crate::reloc::combined_all(mods, crate::reloc::raw_name_bss());
            let cd = crate::reloc::combined_all(mods, crate::reloc::raw_name_data());
            let cr = crate::reloc::combined_all(mods, crate::reloc::raw_name_rdata());
            let ct = crate::reloc::combined_all(mods, crate::reloc::raw_name_text());
            let total = cb.len() + cd.len() + cr.len() + ct.len();
            let n0 = xbe.sections@.len() as int;
            let s0 = xbe.spec_next_virtual_address();
            ||| crate::reloc::all_files_data_len(mods) > u32::MAX
            ||| exists|i: int|
                0 <= i < config.patches@.len() && crate::reloc::all_data_len(
                    (#[trigger] config.patches@[i]).patchfile.coff.sections@,
                ) > u32::MAX
            ||| s0 + total + 0x80 > u32::MAX
            ||| n0 + 4 > 0x1000
            ||| xbe.spec_next_raw_address() + total + 0x5000 > u32::MAX
            ||| crate::xbe::spec_data_blob_len(xbe.sections@) + total + 0x4000 > 0x4000_0000
        }),
{
    let ghost orig = xbe;
    let mut xbe = xbe;

    // Machine limits: everything must stay within 32-bit address space.
    if !files_combine_small(config.modfiles.as_slice()) {
        proof {
            assert(crate::reloc::all_files_data_len(config.modfiles@) > u32::MAX);
        }
        return Err(Error::TooLarge);
    }

    // Combine mod sections.
    let mut section_map = SectionMap::from_data(config.modfiles.as_slice());
    let ghost m0 = section_map;

    // Assign virtual addresses.
    let next = xbe.get_next_virtual_address();
    let total = section_map.total_len_exec();
    proof {
        assert(crate::reloc::slot_len(m0.mbss) == combined_all(
            config.modfiles@,
            raw_name_bss(),
        ).len());
        assert(crate::reloc::slot_len(m0.mdata) == combined_all(
            config.modfiles@,
            raw_name_data(),
        ).len());
        assert(crate::reloc::slot_len(m0.mrdata) == combined_all(
            config.modfiles@,
            raw_name_rdata(),
        ).len());
        assert(crate::reloc::slot_len(m0.mtext) == combined_all(
            config.modfiles@,
            raw_name_text(),
        ).len());
    }
    if next as u64 + total + 0x80 > u32::MAX as u64 {
        return Err(Error::TooLarge);
    }
    section_map.assign_addresses(&xbe);
    let ghost m1 = section_map;

    // Build the global symbol table.
    let symbol_table = match SymbolTable::new(&section_map, &config) {
        Ok(t) => t,
        Err(e) => {
            proof {
                assert(linked_map(m1, config.modfiles@, orig.spec_next_virtual_address()));
            }
            return Err(e);
        },
    };

    // Process relocations for the mods.
    match section_map.process_relocations(&symbol_table, config.modfiles.as_slice()) {
        Ok(()) => (),
        Err(e) => {
            proof {
                assert(linked_map(m1, config.modfiles@, orig.spec_next_virtual_address()));
            }
            return Err(e);
        },
    }
    let ghost m2 = section_map;

    // Apply the patches.
    let ghost snap = xbe;
    match apply_patches(&config, &mut xbe, &symbol_table) {
        Ok(()) => (),
        Err(e) => {
            proof {
                assert(linked_map(m1, config.modfiles@, orig.spec_next_virtual_address()));
            }
            return Err(e);
        },
    }

    // Insert the combined sections into the image.
    proof {
        crate::xbe::lemma_blob_len_congruent(xbe.sections@, orig.sections@);
        assert(xbe.spec_next_virtual_address() == orig.spec_next_virtual_address());
        assert(xbe.spec_next_raw_address() == orig.spec_next_raw_address());
    }
    if xbe.sections.len() + 4 > 0x1000 {
        return Err(Error::TooLarge);
    }
    proof {
        crate::xbe::lemma_next_addresses(xbe);
    }
    if xbe.next_raw_address() as u64 + total + 0x5000 > u32::MAX as u64 {
        return Err(Error::TooLarge);
    }
    if xbe.data_blob_len() + total + 0x4000 > 0x4000_0000 {
        return Err(Error::TooLarge);
    }
    proof {
        crate::xbe::lemma_blob_len_congruent(xbe.sections@, snap.sections@);
        assert(xbe.spec_next_virtual_address() == snap.spec_next_virtual_address());
        assert(section_map.spec_assigned(xbe));
        assert(crate::reloc::slot_len(m2.mbss) == combined_all(
            config.modfiles@,
            raw_name_bss(),
        ).len());
        assert(crate::reloc::slot_len(m2.mdata) == combined_all(
            config.modfiles@,
            raw_name_data(),
        ).len());
        assert(crate::reloc::slot_len(m2.mrdata) == combined_all(
            config.modfiles@,
            raw_name_rdata(),
        ).len());
        assert(crate::reloc::slot_len(m2.mtext) == combined_all(
            config.modfiles@,
            raw_name_text(),
        ).len());
    }
    let ghost m_final = section_map;
    append_combined(section_map, &mut xbe, Ghost(config.modfiles@));
    proof {
        assert(linked_map(m1, config.modfiles@, orig.spec_next_virtual_address()));
    }

    Ok(xbe)
}

} // verus!
