//! A patch: a COFF object whose bytes, between a start and an end symbol,
//! overwrite the base image at a fixed virtual address.

use vstd::prelude::*;

verus! {

use crate::coff::{CoffSymbol, ObjectFile, SECTION_NUMBER_DEBUG, SECTION_NUMBER_UNDEFINED};
use crate::error::{Error, PatchError};
use crate::reloc::{
    bytes_as_chars, combined, raw_name_bss, raw_name_data, raw_name_of, raw_name_rdata,
    raw_name_text, spec_file_fold, spec_output_kind, str_eq_bytes, OutputKind, SectionMap,
    SymbolTable,
};

/// One configured patch.
#[derive(Debug)]
pub struct Patch {
    /// The object holding the patch code.
    pub patchfile: ObjectFile,
    /// Name of the symbol where the patch bytes begin.
    pub start_symbol_name: String,
    /// Name of the symbol just past the patch bytes.
    pub end_symbol_name: String,
    /// Where in the base image the patch bytes are written.
    pub virtual_address: u32,
}

impl Patch {
    /// Structural soundness: a sound patch object.
    pub open spec fn wf(self) -> bool {
        self.patchfile.wf()
    }

    /// Bundles a parsed patch object with its configured symbols and
    /// address.
    pub fn new(
        patchfile: ObjectFile,
        start_symbol_name: String,
        end_symbol_name: String,
        virtual_address: u32,
    ) -> (r: Patch)
        ensures
            r.patchfile == patchfile,
            r.start_symbol_name == start_symbol_name,
            r.end_symbol_name == end_symbol_name,
            r.virtual_address == virtual_address,
    {
        Patch { patchfile, start_symbol_name, end_symbol_name, virtual_address }
    }
}


/// First symbol whose resolved name matches `name`.
pub open spec fn spec_find_symbol(syms: Seq<CoffSymbol>, name: Seq<char>, i: int) -> Option<int>
    decreases syms.len() - i,
{
    if i < 0 || i >= syms.len() {
        None
    } else if bytes_as_chars(syms[i].name@) == name {
        Some(i)
    } else {
        spec_find_symbol(syms, name, i + 1)
    }
}


/// The output-section kind of the patch section holding the start
/// symbol.
pub open spec fn spec_patch_kind(p: Patch, start_sn: u16) -> Option<OutputKind> {
    spec_output_kind(
        crate::coff::spec_trim_nul(p.patchfile.coff.sections@[start_sn - 1].name@),
    )
}

/// The patch object's private output section after relocation: its
/// combined bytes, relinked at the configured virtual address against
/// the global symbol table.
pub open spec fn spec_relinked(p: Patch, table: Map<Seq<u8>, u32>, kind: OutputKind) -> Result<
    Seq<u8>,
    (),
> {
    spec_file_fold(
        combined(p.patchfile.coff.sections@, raw_name_of(kind)),
        Map::<Seq<char>, u32>::empty().insert(p.patchfile.filename@, 0u32),
        p.virtual_address,
        p.patchfile,
        table,
        kind,
        0,
    )
}


/// Whether relocating the patch object's private builders (the merged
/// kind at the configured address, the others at address zero) succeeds
/// for every kind against the given table.
pub open spec fn spec_patch_relinks(p: Patch, table: Map<Seq<u8>, u32>, kind: OutputKind) -> bool {
    forall|k: OutputKind|
        #![trigger raw_name_of(k)]
        {
            let c = combined(p.patchfile.coff.sections@, raw_name_of(k));
            let va: u32 = if k == kind {
                p.virtual_address
            } else {
                0
            };
            c.len() > 0 ==> spec_file_fold(
                c,
                Map::<Seq<char>, u32>::empty().insert(p.patchfile.filename@, 0u32),
                va,
                p.patchfile,
                table,
                k,
                0,
            ) is Ok
        }
}


/// When extracting the patch window is owed to succeed: the start
/// symbol's section merges into a kind, the window lies inside that
/// kind's combined bytes, and relocating the private builders succeeds.
pub open spec fn spec_build_owed(
    p: Patch,
    table: Map<Seq<u8>, u32>,
    start_value: u32,
    end_value: u32,
    start_sn: u16,
) -> bool {
    &&& spec_patch_kind(p, start_sn) is Some
    &&& start_value <= end_value
    &&& {
        let kind = spec_patch_kind(p, start_sn)->Some_0;
        let c = combined(p.patchfile.coff.sections@, raw_name_of(kind));
        &&& c.len() > 0
        &&& end_value as int <= c.len()
        &&& spec_patch_relinks(p, table, kind)
    }
}

impl Patch {
    /// Finds a symbol by name in the patch object, returning its value
    /// and section number.
    fn find_symbol(&self, name: &str) -> (r: Option<(u32, u16)>)
        ensures
            match r {
                Some((v, sn)) => spec_find_symbol(
                    self.patchfile.coff.symbols@,
                    name@,
                    0,
                ) matches Some(i) && self.patchfile.coff.symbols@[i].value == v
                    && self.patchfile.coff.symbols@[i].section_number == sn,
                None => spec_find_symbol(self.patchfile.coff.symbols@, name@, 0) is None,
            },
    {
        let syms = &self.patchfile.coff.symbols;
        let n = syms.len();
        let mut i: usize = 0;
        while i < n
            invariant
                i <= n,
                n == syms@.len(),
                syms == self.patchfile.coff.symbols,
                spec_find_symbol(syms@, name@, 0) == spec_find_symbol(syms@, name@, i as int),
            decreases n - i,
        {
            if str_eq_bytes(name, syms[i].name.as_slice()) {
                return Some((syms[i].value, syms[i].section_number));
            }
            i = i + 1;
        }
        None
    }

    /// Re-links the patch object at its configured virtual address and
    /// overwrites the base image with the bytes between its start and end
    /// symbols.
    ///
    /// Fails without touching the image when a symbol is missing, when
    /// the two symbols live in different sections, when the patch's
    /// section was not merged, or when no section of the image covers the
    /// target range.
    #[verifier::rlimit(100)]
    #[verifier::spinoff_prover]
    pub fn apply(&self, xbe: &mut crate::xbe::Xbe, symbol_table: &SymbolTable) -> (r: Result<
        (),
        Error,
    >)
        requires
            self.wf(),
            old(xbe).wf(),
            combined(self.patchfile.coff.sections@, raw_name_text()).len() <= u32::MAX,
            combined(self.patchfile.coff.sections@, raw_name_data()).len() <= u32::MAX,
            combined(self.patchfile.coff.sections@, raw_name_bss()).len() <= u32::MAX,
            combined(self.patchfile.coff.sections@, raw_name_rdata()).len() <= u32::MAX,
        ensures
            final(xbe).wf(),
            final(xbe).header == old(xbe).header,
            final(xbe).library_versions == old(xbe).library_versions,
            final(xbe).logo_bitmap == old(xbe).logo_bitmap,
            final(xbe).sections@.len() == old(xbe).sections@.len(),
            forall|j: int|
                0 <= j < old(xbe).sections@.len() ==> {
                    let s = #[trigger] final(xbe).sections@[j];
                    let o = old(xbe).sections@[j];
                    &&& s.name == o.name
                    &&& s.flags == o.flags
                    &&& s.virtual_address == o.virtual_address
                    &&& s.virtual_size == o.virtual_size
                    &&& s.raw_address == o.raw_address
                    &&& s.digest == o.digest
                    &&& s.data@.len() == o.data@.len()
                },
            r is Err ==> *final(xbe) == *old(xbe),
            r is Err ==> (r->Err_0 is Patch || r->Err_0 is Relocation),
            ({
                let syms = self.patchfile.coff.symbols@;
                let si = spec_find_symbol(syms, self.start_symbol_name@, 0);
                let ei = spec_find_symbol(syms, self.end_symbol_name@, 0);
                (si matches Some(s) && ei matches Some(e) && syms[s].section_number
                    != syms[e].section_number) <==> (r matches Err(Error::Patch(
                    n,
                    PatchError::SectionMismatch,
                )) && n@ == self.start_symbol_name@)
            }),
            spec_find_symbol(self.patchfile.coff.symbols@, self.start_symbol_name@, 0)
                is None ==> (r matches Err(Error::Patch(n, PatchError::UndefinedSymbol(m)))
                && n@ == self.start_symbol_name@ && m@ == self.start_symbol_name@),
            (spec_find_symbol(self.patchfile.coff.symbols@, self.start_symbol_name@, 0)
                is Some && spec_find_symbol(
                self.patchfile.coff.symbols@,
                self.end_symbol_name@,
                0,
            ) is None) ==> (r matches Err(Error::Patch(n, PatchError::UndefinedSymbol(m)))
                && n@ == self.start_symbol_name@ && m@ == self.end_symbol_name@),
            ({
                let syms = self.patchfile.coff.symbols@;
                let si = spec_find_symbol(syms, self.start_symbol_name@, 0);
                let ei = spec_find_symbol(syms, self.end_symbol_name@, 0);
                (si is Some && ei is Some && syms[si->Some_0].section_number
                    == syms[ei->Some_0].section_number && 1 <= syms[si->Some_0].section_number
                    < crate::coff::SECTION_NUMBER_DEBUG && spec_build_owed(
                    *self,
                    symbol_table.view_map(),
                    syms[si->Some_0].value,
                    syms[ei->Some_0].value,
                    syms[si->Some_0].section_number,
                ) && !(self.virtual_address + (syms[ei->Some_0].value - syms[
                si->Some_0].value) <= u32::MAX && crate::xbe::Xbe::spec_range_covered(
                    old(xbe).sections@,
                    self.virtual_address as int,
                    self.virtual_address + (syms[ei->Some_0].value - syms[si->Some_0].value),
                ))) ==> r matches Err(Error::Patch(_, PatchError::InvalidAddress(_)))
            }),
            r matches Err(Error::Patch(n, PatchError::UndefinedSymbol(m))) ==> ({
                let syms = self.patchfile.coff.symbols@;
                let si = spec_find_symbol(syms, self.start_symbol_name@, 0);
                let ei = spec_find_symbol(syms, self.end_symbol_name@, 0);
                ||| (si is None && m@ == self.start_symbol_name@)
                ||| (si is Some && ei is None && m@ == self.end_symbol_name@)
                ||| (si is Some && ei is Some && m@ == self.start_symbol_name@ && !(1 <= syms[
                si->Some_0].section_number < crate::coff::SECTION_NUMBER_DEBUG))
                ||| (si is Some && ei is Some && m@ == self.end_symbol_name@
                    && spec_patch_kind(*self, syms[si->Some_0].section_number) is Some && !(
                syms[si->Some_0].value <= syms[ei->Some_0].value && syms[ei->Some_0].value
                    as int <= combined(
                    self.patchfile.coff.sections@,
                    raw_name_of(spec_patch_kind(*self, syms[si->Some_0].section_number)->Some_0),
                ).len()))
            }),
            r matches Err(Error::Patch(n, PatchError::InvalidAddress(a))) ==> ({
                let syms = self.patchfile.coff.symbols@;
                let si = spec_find_symbol(syms, self.start_symbol_name@, 0)->Some_0;
                let ei = spec_find_symbol(syms, self.end_symbol_name@, 0)->Some_0;
                let len = syms[ei].value - syms[si].value;
                &&& a == self.virtual_address
                &&& n@ == self.start_symbol_name@
                &&& spec_find_symbol(syms, self.start_symbol_name@, 0) is Some
                &&& spec_find_symbol(syms, self.end_symbol_name@, 0) is Some
                &&& syms[si].value <= syms[ei].value
                &&& !(self.virtual_address + len <= u32::MAX
                    && crate::xbe::Xbe::spec_range_covered(
                    old(xbe).sections@,
                    self.virtual_address as int,
                    self.virtual_address + len,
                ))
            }),
            r is Ok <==> ({
                let syms = self.patchfile.coff.symbols@;
                let si = spec_find_symbol(syms, self.start_symbol_name@, 0);
                let ei = spec_find_symbol(syms, self.end_symbol_name@, 0);
                &&& si is Some
                &&& ei is Some
                &&& syms[si->Some_0].section_number == syms[ei->Some_0].section_number
                &&& 1 <= syms[si->Some_0].section_number < crate::coff::SECTION_NUMBER_DEBUG
                &&& spec_build_owed(
                    *self,
                    symbol_table.view_map(),
                    syms[si->Some_0].value,
                    syms[ei->Some_0].value,
                    syms[si->Some_0].section_number,
                )
                &&& self.virtual_address + (syms[ei->Some_0].value - syms[si->Some_0].value)
                    <= u32::MAX
                &&& crate::xbe::Xbe::spec_range_covered(
                    old(xbe).sections@,
                    self.virtual_address as int,
                    self.virtual_address + (syms[ei->Some_0].value - syms[si->Some_0].value),
                )
            }),
            r is Ok ==> ({
                let syms = self.patchfile.coff.symbols@;
                let si = spec_find_symbol(syms, self.start_symbol_name@, 0)->Some_0;
                let ei = spec_find_symbol(syms, self.end_symbol_name@, 0)->Some_0;
                let len = syms[ei].value - syms[si].value;
                let endp = self.virtual_address + len;
                &&& spec_find_symbol(syms, self.start_symbol_name@, 0) is Some
                &&& spec_find_symbol(syms, self.end_symbol_name@, 0) is Some
                &&& syms[si].value <= syms[ei].value
                &&& endp <= u32::MAX
                &&& crate::xbe::Xbe::spec_range_covered(
                    old(xbe).sections@,
                    self.virtual_address as int,
                    endp,
                )
                &&& spec_patch_kind(*self, syms[si].section_number) is Some
                &&& {
                    let kind = spec_patch_kind(*self, syms[si].section_number)->Some_0;
                    let folded = spec_relinked(*self, symbol_table.view_map(), kind);
                    let i = crate::xbe::Xbe::spec_find_covering(
                        old(xbe).sections@,
                        self.virtual_address as int,
                        endp,
                    )->Some_0;
                    &&& folded is Ok
                    &&& syms[ei].value as int <= folded->Ok_0.len()
                    &&& final(xbe).sections@[i].data@ == crate::xbe::Section::spliced(
                        old(xbe).sections@[i].data@,
                        self.virtual_address - old(xbe).sections@[i].virtual_address,
                        folded->Ok_0.subrange(syms[si].value as int, syms[ei].value as int),
                    )
                    &&& forall|j: int|
                        0 <= j < old(xbe).sections@.len() && j != i ==> final(xbe).sections@[j]
                            == old(xbe).sections@[j]
                }
            }),
    {
        let (start_value, start_sn) = match self.find_symbol(self.start_symbol_name.as_str()) {
            Some(x) => x,
            None => {
                return Err(
                    Error::Patch(
                        self.clone_start_name(),
                        PatchError::UndefinedSymbol(self.clone_start_name()),
                    ),
                );
            },
        };
        let (end_value, end_sn) = match self.find_symbol(self.end_symbol_name.as_str()) {
            Some(x) => x,
            None => {
                return Err(
                    Error::Patch(
                        self.clone_start_name(),
                        PatchError::UndefinedSymbol(self.clone_end_name()),
                    ),
                );
            },
        };
        if start_sn != end_sn {
            return Err(Error::Patch(self.clone_start_name(), PatchError::SectionMismatch));
        }
        if start_sn == SECTION_NUMBER_UNDEFINED || start_sn >= SECTION_NUMBER_DEBUG {
            return Err(
                Error::Patch(
                    self.clone_start_name(),
                    PatchError::UndefinedSymbol(self.clone_start_name()),
                ),
            );
        }
        let ghost syms = self.patchfile.coff.symbols@;
        proof {
            let i = spec_find_symbol(syms, self.start_symbol_name@, 0)->Some_0;
            lemma_find_symbol_in_range(syms, self.start_symbol_name@, 0);
            assert(syms[i].wf_in(self.patchfile.coff.sections@.len() as int));
        }
        let patch_bytes = match self.build_patch_bytes(
            symbol_table,
            start_value,
            end_value,
            start_sn,
        ) {
            Ok(v) => v,
            Err(e) => {
                return Err(e);
            },
        };
        let ghost pb = patch_bytes@;
        let r = self.write_patch(xbe, patch_bytes);
        proof {
            if r is Ok {
                let endp = self.virtual_address + pb.len();
                let i = crate::xbe::Xbe::spec_find_covering(
                    old(xbe).sections@,
                    self.virtual_address as int,
                    endp,
                )->Some_0;
                assert(final(xbe).sections@[i].data@ == crate::xbe::Section::spliced(
                    old(xbe).sections@[i].data@,
                    self.virtual_address - old(xbe).sections@[i].virtual_address,
                    pb,
                ));
            }
        }
        r
    }

    /// Writes the extracted patch bytes over the base image at the
    /// configured virtual address.
    #[verifier::rlimit(100)]
    #[verifier::spinoff_prover]
    fn write_patch(&self, xbe: &mut crate::xbe::Xbe, patch_bytes: Vec<u8>) -> (r: Result<
        (),
        Error,
    >)
        requires
            old(xbe).wf(),
        ensures
            final(xbe).wf(),
            final(xbe).header == old(xbe).header,
            final(xbe).library_versions == old(xbe).library_versions,
            final(xbe).logo_bitmap == old(xbe).logo_bitmap,
            final(xbe).sections@.len() == old(xbe).sections@.len(),
            forall|j: int|
                0 <= j < old(xbe).sections@.len() ==> {
                    let s = #[trigger] final(xbe).sections@[j];
                    let o = old(xbe).sections@[j];
                    &&& s.name == o.name
                    &&& s.flags == o.flags
                    &&& s.virtual_address == o.virtual_address
                    &&& s.virtual_size == o.virtual_size
                    &&& s.raw_address == o.raw_address
                    &&& s.digest == o.digest
                    &&& s.data@.len() == o.data@.len()
                },
            r is Err ==> *final(xbe) == *old(xbe),
            r is Err ==> (r->Err_0 matches Error::Patch(n, PatchError::InvalidAddress(a)) && n@
                == self.start_symbol_name@ && a == self.virtual_address),
            r is Ok <==> self.virtual_address + patch_bytes@.len() <= u32::MAX
                && crate::xbe::Xbe::spec_range_covered(
                old(xbe).sections@,
                self.virtual_address as int,
                self.virtual_address + patch_bytes@.len(),
            ),
            r is Ok ==> ({
                let endp = self.virtual_address + patch_bytes@.len();
                let i = crate::xbe::Xbe::spec_find_covering(
                    old(xbe).sections@,
                    self.virtual_address as int,
                    endp,
                )->Some_0;
                &&& final(xbe).sections@[i].data@ == crate::xbe::Section::spliced(
                    old(xbe).sections@[i].data@,
                    self.virtual_address - old(xbe).sections@[i].virtual_address,
                    patch_bytes@,
                )
                &&& forall|j: int|
                    0 <= j < old(xbe).sections@.len() && j != i ==> final(xbe).sections@[j]
                        == old(xbe).sections@[j]
            }),
    {
        if patch_bytes.len() > 0xFFFF_FFFF {
            return Err(
                Error::Patch(
                    self.clone_start_name(),
                    PatchError::InvalidAddress(self.virtual_address),
                ),
            );
        }
        if self.virtual_address as u64 + patch_bytes.len() as u64 > u32::MAX as u64 {
            return Err(
                Error::Patch(
                    self.clone_start_name(),
                    PatchError::InvalidAddress(self.virtual_address),
                ),
            );
        }
        if !xbe.write_bytes(self.virtual_address, patch_bytes.as_slice()) {
            return Err(
                Error::Patch(
                    self.clone_start_name(),
                    PatchError::InvalidAddress(self.virtual_address),
                ),
            );
        }
        proof {
            let endp = self.virtual_address + patch_bytes@.len();
            crate::xbe::lemma_find_covering_found(
                old(xbe).sections@,
                self.virtual_address as int,
                endp,
            );
            let i = crate::xbe::Xbe::spec_find_covering(
                old(xbe).sections@,
                self.virtual_address as int,
                endp,
            )->Some_0;
            let o = old(xbe).sections@[i];
            let off = self.virtual_address - o.virtual_address;
            assert(crate::xbe::Section::spliced(o.data@, off, patch_bytes@).len()
                == o.data@.len());
        }
        Ok(())
    }

    /// Runs the combine-and-relocate steps on the patch object alone and
    /// cuts out the bytes between the start and end symbols.
    fn build_patch_bytes(
        &self,
        symbol_table: &SymbolTable,
        start_value: u32,
        end_value: u32,
        start_sn: u16,
    ) -> (r: Result<Vec<u8>, Error>)
        requires
            self.wf(),
            1 <= start_sn < SECTION_NUMBER_DEBUG,
            start_sn as int <= self.patchfile.coff.sections@.len(),
            combined(self.patchfile.coff.sections@, raw_name_text()).len() <= u32::MAX,
            combined(self.patchfile.coff.sections@, raw_name_data()).len() <= u32::MAX,
            combined(self.patchfile.coff.sections@, raw_name_bss()).len() <= u32::MAX,
            combined(self.patchfile.coff.sections@, raw_name_rdata()).len() <= u32::MAX,
        ensures
            match r {
                Ok(v) => {
                    &&& start_value <= end_value
                    &&& v@.len() == end_value - start_value
                    &&& spec_patch_kind(*self, start_sn) is Some
                    &&& {
                        let kind = spec_patch_kind(*self, start_sn)->Some_0;
                        let folded = spec_relinked(*self, symbol_table.view_map(), kind);
                        &&& folded is Ok
                        &&& end_value as int <= folded->Ok_0.len()
                        &&& v@ == folded->Ok_0.subrange(start_value as int, end_value as int)
                    }
                },
                Err(e) => (e is Patch || e is Relocation) && !(e matches Error::Patch(
                    _,
                    PatchError::SectionMismatch,
                )) && !(e matches Error::Patch(_, PatchError::InvalidAddress(_))),
            },
            r is Ok <==> spec_build_owed(
                *self,
                symbol_table.view_map(),
                start_value,
                end_value,
                start_sn,
            ),
            r matches Err(Error::Patch(_, PatchError::UndefinedSymbol(m))) ==> ({
                let kind = spec_patch_kind(*self, start_sn)->Some_0;
                let c = combined(self.patchfile.coff.sections@, raw_name_of(kind));
                &&& spec_patch_kind(*self, start_sn) is Some
                &&& m@ == self.end_symbol_name@
                &&& !(start_value <= end_value && end_value as int <= c.len())
            }),
    {
        let sec_name = crate::coff::trim_nul(
            self.patchfile.coff.sections[(start_sn - 1) as usize].name.as_slice(),
        );

        let mut section_map = SectionMap::new();
        section_map.add_object(&self.patchfile);
        let ghost table = symbol_table.view_map();

        let kind = match crate::reloc::output_kind(sec_name.as_slice()) {
            Some(k) => k,
            None => {
                proof {
                    assert(!spec_build_owed(*self, table, start_value, end_value, start_sn));
                }
                return Err(
                    Error::Patch(self.clone_start_name(), PatchError::MissingSection(sec_name)),
                );
            },
        };
        let placed = match kind {
            OutputKind::Text => match &mut section_map.mtext {
                Some(b) => {
                    b.virtual_address = self.virtual_address;
                    true
                },
                None => false,
            },
            OutputKind::Data => match &mut section_map.mdata {
                Some(b) => {
                    b.virtual_address = self.virtual_address;
                    true
                },
                None => false,
            },
            OutputKind::Bss => match &mut section_map.mbss {
                Some(b) => {
                    b.virtual_address = self.virtual_address;
                    true
                },
                None => false,
            },
            OutputKind::Rdata => match &mut section_map.mrdata {
                Some(b) => {
                    b.virtual_address = self.virtual_address;
                    true
                },
                None => false,
            },
        };
        if !placed {
            proof {
                assert(combined(self.patchfile.coff.sections@, raw_name_of(kind)).len() == 0);
                assert(!spec_build_owed(*self, table, start_value, end_value, start_sn));
            }
            return Err(
                Error::Patch(self.clone_start_name(), PatchError::MissingSection(sec_name)),
            );
        }

        let ghost gp = section_map;
        match section_map.process_file(symbol_table, &self.patchfile) {
            Ok(()) => (),
            Err(e) => {
                proof {
                    if spec_build_owed(*self, table, start_value, end_value, start_sn) {
                        assert(raw_name_of(OutputKind::Text) == raw_name_text());
                        assert(raw_name_of(OutputKind::Data) == raw_name_data());
                        assert(raw_name_of(OutputKind::Bss) == raw_name_bss());
                        assert(raw_name_of(OutputKind::Rdata) == raw_name_rdata());
                        assert(crate::reloc::slot_file_fold_succeeds(
                            gp.mtext,
                            self.patchfile,
                            table,
                            OutputKind::Text,
                        ));
                        assert(crate::reloc::slot_file_fold_succeeds(
                            gp.mdata,
                            self.patchfile,
                            table,
                            OutputKind::Data,
                        ));
                        assert(crate::reloc::slot_file_fold_succeeds(
                            gp.mbss,
                            self.patchfile,
                            table,
                            OutputKind::Bss,
                        ));
                        assert(crate::reloc::slot_file_fold_succeeds(
                            gp.mrdata,
                            self.patchfile,
                            table,
                            OutputKind::Rdata,
                        ));
                        assert(false);
                    }
                }
                return Err(e);
            },
        }

        let builder = match section_map.get_by_kind(kind) {
            Some(b) => b,
            None => {
                proof {
                    assert(!spec_build_owed(*self, table, start_value, end_value, start_sn));
                }
                return Err(
                    Error::Patch(self.clone_start_name(), PatchError::MissingSection(sec_name)),
                );
            },
        };
        if start_value > end_value || end_value as usize > builder.bytes.len() {
            proof {
                assert(builder.bytes@.len() == combined(
                    self.patchfile.coff.sections@,
                    raw_name_of(kind),
                ).len());
                assert(!spec_build_owed(*self, table, start_value, end_value, start_sn));
            }
            return Err(
                Error::Patch(
                    self.clone_start_name(),
                    PatchError::UndefinedSymbol(self.clone_end_name()),
                ),
            );
        }
        proof {
            assert(raw_name_of(OutputKind::Text) == raw_name_text());
            assert(raw_name_of(OutputKind::Data) == raw_name_data());
            assert(raw_name_of(OutputKind::Bss) == raw_name_bss());
            assert(raw_name_of(OutputKind::Rdata) == raw_name_rdata());
            assert forall|k: OutputKind| #![trigger raw_name_of(k)] {
                let c = combined(self.patchfile.coff.sections@, raw_name_of(k));
                let va: u32 = if k == kind {
                    self.virtual_address
                } else {
                    0
                };
                c.len() > 0 ==> spec_file_fold(
                    c,
                    Map::<Seq<char>, u32>::empty().insert(self.patchfile.filename@, 0u32),
                    va,
                    self.patchfile,
                    table,
                    k,
                    0,
                ) is Ok
            } by {
                match k {
                    OutputKind::Text => {
                        assert(crate::reloc::slot_file_fold_succeeds(
                            gp.mtext,
                            self.patchfile,
                            table,
                            OutputKind::Text,
                        ));
                    },
                    OutputKind::Data => {
                        assert(crate::reloc::slot_file_fold_succeeds(
                            gp.mdata,
                            self.patchfile,
                            table,
                            OutputKind::Data,
                        ));
                    },
                    OutputKind::Bss => {
                        assert(crate::reloc::slot_file_fold_succeeds(
                            gp.mbss,
                            self.patchfile,
                            table,
                            OutputKind::Bss,
                        ));
                    },
                    OutputKind::Rdata => {
                        assert(crate::reloc::slot_file_fold_succeeds(
                            gp.mrdata,
                            self.patchfile,
                            table,
                            OutputKind::Rdata,
                        ));
                    },
                }
            }
            assert(spec_patch_relinks(*self, table, kind));
        }
        Ok(
            crate::bytesutil::copy_range(
                builder.bytes.as_slice(),
                start_value as usize,
                end_value as usize,
            ),
        )
    }

    /// A fresh copy of the start symbol's name.
    fn clone_start_name(&self) -> (r: String)
        ensures
            r@ == self.start_symbol_name@,
    {
        self.start_symbol_name.as_str().to_owned()
    }

    /// A fresh copy of the end symbol's name.
    fn clone_end_name(&self) -> (r: String)
        ensures
            r@ == self.end_symbol_name@,
    {
        self.end_symbol_name.as_str().to_owned()
    }
}

/// A found symbol's index lies within the table.
proof fn lemma_find_symbol_in_range(syms: Seq<CoffSymbol>, name: Seq<char>, i: int)
    requires
        0 <= i <= syms.len(),
    ensures
        spec_find_symbol(syms, name, i) matches Some(k) ==> i <= k < syms.len(),
    decreases syms.len() - i,
{
    if i < syms.len() {
        lemma_find_symbol_in_range(syms, name, i + 1);
    }
}

} // verus!
