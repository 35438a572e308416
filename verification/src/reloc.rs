//! Combining input sections into output sections, resolving symbols, and
//! evaluating x86 relocations.
//!
//! A [`SectionBuilder`] accumulates the bytes of one output section
//! (`.mtext`, `.mdata`, `.mbss` or `.mrdata`) and remembers, for every
//! contributing object file, the offset at which that file's bytes begin.
//! A [`SectionMap`] holds the builders of the four output sections, always
//! iterated in ascending name order (`.mbss`, `.mdata`, `.mrdata`,
//! `.mtext`). A [`SymbolTable`] maps symbol names to resolved virtual
//! addresses.

use vstd::prelude::*;

verus! {

use crate::bytesutil::{bytes_eq, read_u32_at, round_up, str_eq, write_u32_at};
use crate::coff::{
    Coff, CoffRelocation, CoffSection, CoffSymbol, ObjectFile, IMAGE_REL_I386_DIR32,
    IMAGE_REL_I386_REL32, IMAGE_SYM_CLASS_EXTERNAL, IMAGE_SYM_CLASS_FILE, IMAGE_SYM_CLASS_STATIC,
    SECTION_NUMBER_ABSOLUTE, SECTION_NUMBER_DEBUG, SECTION_NUMBER_UNDEFINED,
};
use crate::error::RelocationError;
use crate::xbe::{SECTION_FLAG_EXECUTABLE, SECTION_FLAG_PRELOAD, SECTION_FLAG_WRITABLE};
use vstd::bytes::spec_u32_from_le_bytes;
use vstd::slice::slice_to_vec;
use vstd::string::StrSliceExecFns;

/// Addition of two 32-bit words modulo `2^32`.
pub open spec fn wrap_add32(a: u32, b: u32) -> u32 {
    ((a + b) % 0x1_0000_0000) as u32
}

/// Subtraction `a - b` of two 32-bit words modulo `2^32`.
pub open spec fn wrap_sub32(a: u32, b: u32) -> u32 {
    (((a - b) + 0x1_0000_0000) % 0x1_0000_0000) as u32
}

/// Exec wrapping addition agrees with `wrap_add32`.
pub fn wrapping_add_u32(a: u32, b: u32) -> (r: u32)
    ensures
        r == wrap_add32(a, b),
{
    let r = a.wrapping_add(b);
    proof {
        if a + b > u32::MAX {
            assert((a + b) % 0x1_0000_0000 == a + b - 0x1_0000_0000);
        } else {
            assert((a + b) % 0x1_0000_0000 == a + b);
        }
    }
    r
}

/// Exec wrapping subtraction agrees with `wrap_sub32`.
pub fn wrapping_sub_u32(a: u32, b: u32) -> (r: u32)
    ensures
        r == wrap_sub32(a, b),
{
    let r = a.wrapping_sub(b);
    proof {
        if a - b < 0 {
            assert(((a - b) + 0x1_0000_0000) % 0x1_0000_0000 == a - b + 0x1_0000_0000);
        } else {
            assert(((a - b) + 0x1_0000_0000) % 0x1_0000_0000 == a - b);
        }
    }
    r
}

/// The map that a list of `(file name, offset)` entries denotes; later
/// entries shadow earlier ones.
pub open spec fn offsets_map(entries: Seq<(String, u32)>) -> Map<Seq<char>, u32>
    decreases entries.len(),
{
    if entries.len() == 0 {
        Map::empty()
    } else {
        offsets_map(entries.drop_last()).insert(entries.last().0@, entries.last().1)
    }
}

/// Every key of `offsets_map(entries)` comes from an entry, and with
/// pairwise-distinct names each entry's value is its map value.
pub proof fn lemma_offsets_map(entries: Seq<(String, u32)>)
    ensures
        forall|name: Seq<char>|
            #[trigger] offsets_map(entries).contains_key(name) <==> exists|i: int|
                0 <= i < entries.len() && (#[trigger] entries[i]).0@ == name,
        (forall|i: int, j: int|
            0 <= i < j < entries.len() ==> (#[trigger] entries[i]).0@ != (
            #[trigger] entries[j]).0@) ==> forall|i: int|
            0 <= i < entries.len() ==> offsets_map(entries).contains_key(
                (#[trigger] entries[i]).0@,
            ) && offsets_map(entries)[entries[i].0@] == entries[i].1,
    decreases entries.len(),
{
    if entries.len() > 0 {
        lemma_offsets_map(entries.drop_last());
        assert forall|name: Seq<char>|
            #[trigger] offsets_map(entries).contains_key(name) implies exists|i: int|
            0 <= i < entries.len() && (#[trigger] entries[i]).0@ == name by {
            if name == entries.last().0@ {
                assert(entries[entries.len() - 1].0@ == name);
            } else {
                assert(offsets_map(entries.drop_last()).contains_key(name));
                let i = choose|i: int|
                    0 <= i < entries.drop_last().len() && (#[trigger] entries.drop_last()[i]).0@
                        == name;
                assert(entries[i].0@ == name);
            }
        }
        assert forall|name: Seq<char>|
            (exists|i: int| 0 <= i < entries.len() && (#[trigger] entries[i]).0@ == name) implies
            #[trigger] offsets_map(entries).contains_key(name) by {
            let i = choose|i: int| 0 <= i < entries.len() && (#[trigger] entries[i]).0@ == name;
            if i == entries.len() - 1 {
            } else {
                assert(entries.drop_last()[i].0@ == name);
                assert(offsets_map(entries.drop_last()).contains_key(name));
            }
        }
        if forall|i: int, j: int|
            0 <= i < j < entries.len() ==> (#[trigger] entries[i]).0@ != (
            #[trigger] entries[j]).0@ {
            let prev = entries.drop_last();
            assert forall|i: int, j: int|
                0 <= i < j < prev.len() implies (#[trigger] prev[i]).0@ != (
                #[trigger] prev[j]).0@ by {
                assert(entries[i].0@ != entries[j].0@);
            }
            assert forall|i: int|
                0 <= i < entries.len() implies offsets_map(entries).contains_key(
                (#[trigger] entries[i]).0@,
            ) && offsets_map(entries)[entries[i].0@] == entries[i].1 by {
                if i == entries.len() - 1 {
                } else {
                    assert(prev[i].0@ == entries[i].0@ && prev[i].1 == entries[i].1);
                    assert(offsets_map(prev)[prev[i].0@] == prev[i].1);
                    assert(entries[i].0@ != entries.last().0@);
                }
            }
        }
    }
}

/// Accumulates the bytes of one output section.
///
/// `file_offset_start` records, for each contributing file, the offset in
/// `bytes` at which that file's contribution begins; a file may contribute
/// at most once.
#[derive(Debug)]
pub struct SectionBuilder {
    /// The output section's name (one of `.mtext`, `.mdata`, `.mbss`,
    /// `.mrdata` when built by a [`SectionMap`]).
    pub name: String,
    /// The accumulated bytes.
    pub bytes: Vec<u8>,
    /// For each contributing file, where its bytes begin.
    pub file_offset_start: Vec<(String, u32)>,
    /// The section's assigned base virtual address; `0` until assigned.
    pub virtual_address: u32,
}

impl SectionBuilder {
    /// The file-to-offset mapping as a map.
    pub open spec fn offsets(self) -> Map<Seq<char>, u32> {
        offsets_map(self.file_offset_start@)
    }

    /// Structural soundness: distinct file names, offsets within the
    /// accumulated bytes, and a length that fits a 32-bit address space.
    pub open spec fn wf(self) -> bool {
        &&& self.bytes@.len() <= u32::MAX
        &&& forall|i: int, j: int|
            0 <= i < j < self.file_offset_start@.len() ==> (
            #[trigger] self.file_offset_start@[i]).0@ != (
            #[trigger] self.file_offset_start@[j]).0@
        &&& forall|i: int|
            0 <= i < self.file_offset_start@.len() ==> (
            #[trigger] self.file_offset_start@[i]).1 as int <= self.bytes@.len()
    }

    /// An empty builder for the named output section.
    pub fn new(name: String) -> (r: SectionBuilder)
        ensures
            r.wf(),
            r.name@ == name@,
            r.bytes@ == Seq::<u8>::empty(),
            r.offsets() == Map::<Seq<char>, u32>::empty(),
            r.file_offset_start@.len() == 0,
            r.virtual_address == 0,
    {
        SectionBuilder { name, bytes: Vec::new(), file_offset_start: Vec::new(), virtual_address: 0 }
    }

    /// Appends `bytes` and records that `filename`'s contribution begins at
    /// the previous length.
    pub fn add_bytes(&mut self, bytes: &[u8], filename: &str)
        requires
            old(self).wf(),
            !old(self).offsets().contains_key(filename@),
            old(self).bytes@.len() + bytes@.len() <= u32::MAX,
        ensures
            final(self).wf(),
            final(self).name == old(self).name,
            final(self).virtual_address == old(self).virtual_address,
            final(self).bytes@ == old(self).bytes@ + bytes@,
            final(self).offsets() == old(self).offsets().insert(
                filename@,
                old(self).bytes@.len() as u32,
            ),
            final(self).offsets().contains_key(filename@),
            final(self).offsets()[filename@] == old(self).bytes@.len() as u32,
            final(self).file_offset_start@.len() == old(self).file_offset_start@.len() + 1,
            final(self).file_offset_start@.drop_last() == old(self).file_offset_start@,
            final(self).file_offset_start@.last().0@ == filename@,
            final(self).file_offset_start@.last().1 == old(self).bytes@.len() as u32,
    {
        proof {
            lemma_offsets_map(old(self).file_offset_start@);
        }
        let offset = self.bytes.len() as u32;
        let owned = filename.to_owned();
        self.file_offset_start.push((owned, offset));
        let mut data = slice_to_vec(bytes);
        self.bytes.append(&mut data);
        proof {
            let entries = final(self).file_offset_start@;
            assert(entries.drop_last() =~= old(self).file_offset_start@);
            lemma_offsets_map(entries);
            assert forall|i: int, j: int| 0 <= i < j < entries.len() implies (
            #[trigger] entries[i]).0@ != (#[trigger] entries[j]).0@ by {
                if j == entries.len() - 1 {
                    lemma_offsets_map(old(self).file_offset_start@);
                    assert(old(self).offsets().contains_key(entries[i].0@));
                }
            }
        }
    }

    /// Looks up where `filename`'s contribution begins.
    pub fn file_offset(&self, filename: &str) -> (r: Option<u32>)
        requires
            self.wf(),
        ensures
            match r {
                Some(v) => self.offsets().contains_key(filename@) && self.offsets()[filename@]
                    == v,
                None => !self.offsets().contains_key(filename@),
            },
    {
        proof {
            lemma_offsets_map(self.file_offset_start@);
        }
        let n = self.file_offset_start.len();
        let mut i: usize = 0;
        while i < n
            invariant
                self.wf(),
                n == self.file_offset_start@.len(),
                i <= n,
                forall|j: int| 0 <= j < i ==> (#[trigger] self.file_offset_start@[j]).0@
                    != filename@,
            decreases n - i,
        {
            let entry_name: &String = &self.file_offset_start[i].0;
            if str_eq(entry_name.as_str(), filename) {
                proof {
                    lemma_offsets_map(self.file_offset_start@);
                }
                return Some(self.file_offset_start[i].1);
            }
            i = i + 1;
        }
        proof {
            lemma_offsets_map(self.file_offset_start@);
            if self.offsets().contains_key(filename@) {
                let k = choose|k: int|
                    0 <= k < self.file_offset_start@.len() && (
                    #[trigger] self.file_offset_start@[k]).0@ == filename@;
            }
        }
        None
    }

    /// Reads the 32-bit word at `filename`'s start offset plus
    /// `file_section_address`, adds `value` modulo `2^32`, and writes the
    /// sum back at the same place. Nothing else changes.
    pub fn relative_update_u32(
        &mut self,
        filename: &str,
        file_section_address: u32,
        value: u32,
    ) -> (r: Result<(), RelocationError>)
        requires
            old(self).wf(),
        ensures
            final(self).wf(),
            final(self).name == old(self).name,
            final(self).virtual_address == old(self).virtual_address,
            final(self).file_offset_start == old(self).file_offset_start,
            final(self).offsets() == old(self).offsets(),
            final(self).bytes@.len() == old(self).bytes@.len(),
            match r {
                Ok(()) => {
                    &&& old(self).offsets().contains_key(filename@)
                    &&& {
                        let d = old(self).offsets()[filename@] + file_section_address;
                        &&& d + 4 <= old(self).bytes@.len()
                        &&& spec_u32_from_le_bytes(final(self).bytes@.subrange(d, d + 4))
                            == wrap_add32(
                            spec_u32_from_le_bytes(old(self).bytes@.subrange(d, d + 4)),
                            value,
                        )
                        &&& forall|i: int|
                            0 <= i < old(self).bytes@.len() && !(d <= i < d + 4) ==> final(
                                self
                            ).bytes@[i] == old(self).bytes@[i]
                    }
                },
                Err(RelocationError::SectionOffset(n)) => {
                    &&& !old(self).offsets().contains_key(filename@)
                    &&& n@ == old(self).name@
                    &&& final(self).bytes == old(self).bytes
                },
                Err(RelocationError::OutOfBounds(a)) => {
                    &&& old(self).offsets().contains_key(filename@)
                    &&& old(self).offsets()[filename@] + file_section_address + 4 > old(
                        self
                    ).bytes@.len()
                    &&& a == file_section_address
                    &&& final(self).bytes == old(self).bytes
                },
                Err(_) => false,
            },
    {
        let start = match self.file_offset(filename) {
            Some(v) => v,
            None => {
                return Err(RelocationError::SectionOffset(self.name.clone()));
            },
        };
        let d: u64 = start as u64 + file_section_address as u64;
        let len: u64 = self.bytes.len() as u64;
        if d + 4 > len {
            return Err(RelocationError::OutOfBounds(file_section_address));
        }
        let pos = d as usize;
        let prior = read_u32_at(self.bytes.as_slice(), pos);
        let updated = wrapping_add_u32(prior, value);
        write_u32_at(&mut self.bytes, pos, updated);
        proof {
            assert(final(self).bytes@.subrange(pos as int, pos + 4) == vstd::bytes::spec_u32_to_le_bytes(
                updated,
            ));
            vstd::bytes::lemma_auto_spec_u32_to_from_le_bytes();
        }
        Ok(())
    }

    /// [`Self::relative_update_u32`] with a signed addend, reinterpreted as
    /// its two's-complement 32-bit pattern.
    pub fn relative_update_i32(
        &mut self,
        filename: &str,
        file_section_address: u32,
        value: i32,
    ) -> (r: Result<(), RelocationError>)
        requires
            old(self).wf(),
        ensures
            final(self).wf(),
            final(self).name == old(self).name,
            final(self).virtual_address == old(self).virtual_address,
            final(self).file_offset_start == old(self).file_offset_start,
            final(self).offsets() == old(self).offsets(),
            final(self).bytes@.len() == old(self).bytes@.len(),
            match r {
                Ok(()) => {
                    &&& old(self).offsets().contains_key(filename@)
                    &&& {
                        let d = old(self).offsets()[filename@] + file_section_address;
                        &&& d + 4 <= old(self).bytes@.len()
                        &&& spec_u32_from_le_bytes(final(self).bytes@.subrange(d, d + 4))
                            == wrap_add32(
                            spec_u32_from_le_bytes(old(self).bytes@.subrange(d, d + 4)),
                            i32_as_u32(value),
                        )
                        &&& forall|i: int|
                            0 <= i < old(self).bytes@.len() && !(d <= i < d + 4) ==> final(
                                self
                            ).bytes@[i] == old(self).bytes@[i]
                    }
                },
                Err(RelocationError::SectionOffset(n)) => {
                    &&& !old(self).offsets().contains_key(filename@)
                    &&& n@ == old(self).name@
                    &&& final(self).bytes == old(self).bytes
                },
                Err(RelocationError::OutOfBounds(a)) => {
                    &&& old(self).offsets().contains_key(filename@)
                    &&& old(self).offsets()[filename@] + file_section_address + 4 > old(
                        self
                    ).bytes@.len()
                    &&& a == file_section_address
                    &&& final(self).bytes == old(self).bytes
                },
                Err(_) => false,
            },
    {
        let unsigned = u32_from_i32(value);
        self.relative_update_u32(filename, file_section_address, unsigned)
    }
}

/// The two's-complement 32-bit pattern of a signed value.
pub open spec fn i32_as_u32(v: i32) -> u32 {
    if v >= 0 {
        v as u32
    } else {
        (v + 0x1_0000_0000) as u32
    }
}

/// Reinterprets a signed 32-bit value as its two's-complement pattern.
pub fn u32_from_i32(v: i32) -> (r: u32)
    ensures
        r == i32_as_u32(v),
{
    let w: i64 = v as i64;
    if w >= 0 {
        w as u32
    } else {
        (w + 0x1_0000_0000) as u32
    }
}


/// The four output-section kinds.
#[derive(Debug, Clone, Copy, PartialEq, Eq, Structural)]
pub enum OutputKind {
    Text,
    Data,
    Bss,
    Rdata,
}

/// The raw 8-byte name of a `.text` input section.
pub open spec fn raw_name_text() -> Seq<u8> {
    seq![0x2Eu8, 0x74u8, 0x65u8, 0x78u8, 0x74u8, 0u8, 0u8, 0u8]
}

/// The raw 8-byte name of a `.data` input section.
pub open spec fn raw_name_data() -> Seq<u8> {
    seq![0x2Eu8, 0x64u8, 0x61u8, 0x74u8, 0x61u8, 0u8, 0u8, 0u8]
}

/// The raw 8-byte name of a `.bss` input section.
pub open spec fn raw_name_bss() -> Seq<u8> {
    seq![0x2Eu8, 0x62u8, 0x73u8, 0x73u8, 0u8, 0u8, 0u8, 0u8]
}

/// The raw 8-byte name of an `.rdata` input section.
pub open spec fn raw_name_rdata() -> Seq<u8> {
    seq![0x2Eu8, 0x72u8, 0x64u8, 0x61u8, 0x74u8, 0x61u8, 0u8, 0u8]
}

/// The raw 8-byte input-section name for each output kind.
pub open spec fn raw_name_of(kind: OutputKind) -> Seq<u8> {
    match kind {
        OutputKind::Text => raw_name_text(),
        OutputKind::Data => raw_name_data(),
        OutputKind::Bss => raw_name_bss(),
        OutputKind::Rdata => raw_name_rdata(),
    }
}

/// The output kind an input section (by its NUL-trimmed name) is merged
/// into, if any.
pub open spec fn spec_output_kind(trimmed: Seq<u8>) -> Option<OutputKind> {
    if trimmed == raw_name_text().take(5) {
        Some(OutputKind::Text)
    } else if trimmed == raw_name_data().take(5) {
        Some(OutputKind::Data)
    } else if trimmed == raw_name_bss().take(4) {
        Some(OutputKind::Bss)
    } else if trimmed == raw_name_rdata().take(6) {
        Some(OutputKind::Rdata)
    } else {
        None
    }
}

/// Maps a NUL-trimmed input-section name to its output kind.
pub fn output_kind(trimmed: &[u8]) -> (r: Option<OutputKind>)
    ensures
        r == spec_output_kind(trimmed@),
{
    let text: Vec<u8> = vec![0x2Eu8, 0x74, 0x65, 0x78, 0x74];
    let data: Vec<u8> = vec![0x2Eu8, 0x64, 0x61, 0x74, 0x61];
    let bss: Vec<u8> = vec![0x2Eu8, 0x62, 0x73, 0x73];
    let rdata: Vec<u8> = vec![0x2Eu8, 0x72, 0x64, 0x61, 0x74, 0x61];
    proof {
        assert(text@ =~= raw_name_text().take(5));
        assert(data@ =~= raw_name_data().take(5));
        assert(bss@ =~= raw_name_bss().take(4));
        assert(rdata@ =~= raw_name_rdata().take(6));
    }
    if bytes_eq(trimmed, text.as_slice()) {
        Some(OutputKind::Text)
    } else if bytes_eq(trimmed, data.as_slice()) {
        Some(OutputKind::Data)
    } else if bytes_eq(trimmed, bss.as_slice()) {
        Some(OutputKind::Bss)
    } else if bytes_eq(trimmed, rdata.as_slice()) {
        Some(OutputKind::Rdata)
    } else {
        None
    }
}

/// One input section's contribution to the output section with the given
/// raw name: its data when the names match and the section is non-empty.
pub open spec fn piece_of(s: CoffSection, pat: Seq<u8>) -> Seq<u8> {
    if s.name@ == pat && s.size_of_raw_data != 0 {
        s.data@
    } else {
        Seq::empty()
    }
}

/// The bytes one object contributes to the output section with the given
/// raw input name: its matching non-empty sections, concatenated in order.
pub open spec fn combined(sections: Seq<CoffSection>, pat: Seq<u8>) -> Seq<u8>
    decreases sections.len(),
{
    if sections.len() == 0 {
        Seq::empty()
    } else {
        combined(sections.drop_last(), pat) + piece_of(sections.last(), pat)
    }
}

/// The bytes a list of objects contributes to one output section, in
/// input order.
pub open spec fn combined_all(files: Seq<ObjectFile>, pat: Seq<u8>) -> Seq<u8>
    decreases files.len(),
{
    if files.len() == 0 {
        Seq::empty()
    } else {
        combined_all(files.drop_last(), pat) + combined(files.last().coff.sections@, pat)
    }
}

/// The start offset of each contributing file within one output section.
pub open spec fn offsets_all(files: Seq<ObjectFile>, pat: Seq<u8>) -> Map<Seq<char>, u32>
    decreases files.len(),
{
    if files.len() == 0 {
        Map::empty()
    } else {
        let prev = offsets_all(files.drop_last(), pat);
        if combined(files.last().coff.sections@, pat).len() == 0 {
            prev
        } else {
            prev.insert(
                files.last().filename@,
                combined_all(files.drop_last(), pat).len() as u32,
            )
        }
    }
}

/// A prefix contributes no more than the whole list.
pub proof fn lemma_combined_all_prefix(files: Seq<ObjectFile>, pat: Seq<u8>, i: int)
    requires
        0 <= i <= files.len(),
    ensures
        combined_all(files.take(i), pat).len() <= combined_all(files, pat).len(),
    decreases files.len() - i,
{
    if i == files.len() {
        assert(files.take(i) =~= files);
    } else {
        lemma_combined_all_prefix(files, pat, i + 1);
        assert(files.take(i + 1).drop_last() =~= files.take(i));
    }
}

/// Every key of the offsets map names a contributing file.
pub proof fn lemma_offsets_all_keys(files: Seq<ObjectFile>, pat: Seq<u8>)
    ensures
        forall|name: Seq<char>|
            #[trigger] offsets_all(files, pat).contains_key(name) ==> exists|j: int|
                0 <= j < files.len() && (#[trigger] files[j]).filename@ == name,
    decreases files.len(),
{
    if files.len() > 0 {
        lemma_offsets_all_keys(files.drop_last(), pat);
        assert forall|name: Seq<char>|
            #[trigger] offsets_all(files, pat).contains_key(name) implies exists|j: int|
            0 <= j < files.len() && (#[trigger] files[j]).filename@ == name by {
            if combined(files.last().coff.sections@, pat).len() != 0 && name == files.last().filename@ {
                assert(files[files.len() - 1].filename@ == name);
            } else {
                assert(offsets_all(files.drop_last(), pat).contains_key(name));
                let j = choose|j: int|
                    0 <= j < files.drop_last().len() && (#[trigger] files.drop_last()[j]).filename@
                        == name;
                assert(files[j].filename@ == name);
            }
        }
    }
}

/// The builders of the four output sections. Iteration is always in
/// ascending name order: `.mbss`, `.mdata`, `.mrdata`, `.mtext`.
#[derive(Debug)]
pub struct SectionMap {
    pub mbss: Option<SectionBuilder>,
    pub mdata: Option<SectionBuilder>,
    pub mrdata: Option<SectionBuilder>,
    pub mtext: Option<SectionBuilder>,
}

impl SectionMap {
    /// The builder for the given output kind.
    pub open spec fn spec_get(self, kind: OutputKind) -> Option<SectionBuilder> {
        match kind {
            OutputKind::Text => self.mtext,
            OutputKind::Data => self.mdata,
            OutputKind::Bss => self.mbss,
            OutputKind::Rdata => self.mrdata,
        }
    }

    /// Structural soundness: each present builder is sound and carries its
    /// output section's name.
    pub open spec fn wf(self) -> bool {
        &&& match self.mtext {
            Some(b) => b.wf() && b.name@ == ".mtext"@,
            None => true,
        }
        &&& match self.mdata {
            Some(b) => b.wf() && b.name@ == ".mdata"@,
            None => true,
        }
        &&& match self.mbss {
            Some(b) => b.wf() && b.name@ == ".mbss"@,
            None => true,
        }
        &&& match self.mrdata {
            Some(b) => b.wf() && b.name@ == ".mrdata"@,
            None => true,
        }
    }

    /// An empty map.
    pub fn new() -> (r: SectionMap)
        ensures
            r.wf(),
            r.mtext is None,
            r.mdata is None,
            r.mbss is None,
            r.mrdata is None,
    {
        SectionMap { mbss: None, mdata: None, mrdata: None, mtext: None }
    }
}

/// The relation between one output-kind slot before and after an object's
/// sections are merged in: `data` appended, the file's start offset
/// recorded at the old length.
pub open spec fn builder_updated(
    before: Option<SectionBuilder>,
    after: Option<SectionBuilder>,
    kind_name: Seq<char>,
    filename: Seq<char>,
    data: Seq<u8>,
) -> bool {
    if data.len() == 0 {
        after == before
    } else {
        match after {
            None => false,
            Some(b) => {
                &&& b.name@ == kind_name
                &&& match before {
                    None => {
                        &&& b.bytes@ == data
                        &&& b.offsets() == Map::<Seq<char>, u32>::empty().insert(filename, 0u32)
                        &&& b.virtual_address == 0
                    },
                    Some(ob) => {
                        &&& b.bytes@ == ob.bytes@ + data
                        &&& b.offsets() == ob.offsets().insert(
                            filename,
                            ob.bytes@.len() as u32,
                        )
                        &&& b.virtual_address == ob.virtual_address
                    },
                }
            },
        }
    }
}

/// The bytes of `file`'s sections that match the raw name `pat`,
/// concatenated in section order.
fn collect_kind(file: &ObjectFile, pat: &[u8]) -> (r: Vec<u8>)
    requires
        file.wf(),
    ensures
        r@ == combined(file.coff.sections@, pat@),
{
    let n = file.coff.sections.len();
    let mut out: Vec<u8> = Vec::new();
    let mut i: usize = 0;
    while i < n
        invariant
            file.wf(),
            i <= n,
            n == file.coff.sections@.len(),
            out@ == combined(file.coff.sections@.take(i as int), pat@),
        decreases n - i,
    {
        let s = &file.coff.sections[i];
        if s.size_of_raw_data != 0 && bytes_eq(s.name.as_slice(), pat) {
            crate::bytesutil::push_bytes(&mut out, s.data.as_slice());
        }
        i = i + 1;
        proof {
            assert(file.coff.sections@.take(i as int).drop_last() =~= file.coff.sections@.take(
                i - 1,
            ));
            if !(file.coff.sections@[i - 1].name@ == pat@ && file.coff.sections@[i
                - 1].size_of_raw_data != 0) {
                assert(out@ =~= combined(file.coff.sections@.take(i as int), pat@));
            }
        }
    }
    proof {
        assert(file.coff.sections@.take(n as int) =~= file.coff.sections@);
    }
    out
}

impl SectionMap {
    /// Merges one object's `.text`, `.data`, `.bss` and `.rdata` sections
    /// into the corresponding builders.
    pub fn add_object(&mut self, file: &ObjectFile)
        requires
            old(self).wf(),
            file.wf(),
            old(self).mtext matches Some(b) ==> !b.offsets().contains_key(file.filename@)
                && b.bytes@.len() + combined(file.coff.sections@, raw_name_text()).len()
                <= u32::MAX,
            old(self).mdata matches Some(b) ==> !b.offsets().contains_key(file.filename@)
                && b.bytes@.len() + combined(file.coff.sections@, raw_name_data()).len()
                <= u32::MAX,
            old(self).mbss matches Some(b) ==> !b.offsets().contains_key(file.filename@)
                && b.bytes@.len() + combined(file.coff.sections@, raw_name_bss()).len()
                <= u32::MAX,
            old(self).mrdata matches Some(b) ==> !b.offsets().contains_key(file.filename@)
                && b.bytes@.len() + combined(file.coff.sections@, raw_name_rdata()).len()
                <= u32::MAX,
            combined(file.coff.sections@, raw_name_text()).len() <= u32::MAX,
            combined(file.coff.sections@, raw_name_data()).len() <= u32::MAX,
            combined(file.coff.sections@, raw_name_bss()).len() <= u32::MAX,
            combined(file.coff.sections@, raw_name_rdata()).len() <= u32::MAX,
        ensures
            final(self).wf(),
            builder_updated(
                old(self).mtext,
                final(self).mtext,
                ".mtext"@,
                file.filename@,
                combined(file.coff.sections@, raw_name_text()),
            ),
            builder_updated(
                old(self).mdata,
                final(self).mdata,
                ".mdata"@,
                file.filename@,
                combined(file.coff.sections@, raw_name_data()),
            ),
            builder_updated(
                old(self).mbss,
                final(self).mbss,
                ".mbss"@,
                file.filename@,
                combined(file.coff.sections@, raw_name_bss()),
            ),
            builder_updated(
                old(self).mrdata,
                final(self).mrdata,
                ".mrdata"@,
                file.filename@,
                combined(file.coff.sections@, raw_name_rdata()),
            ),
    {
        let text_pat: Vec<u8> = vec![0x2Eu8, 0x74, 0x65, 0x78, 0x74, 0, 0, 0];
        let data_pat: Vec<u8> = vec![0x2Eu8, 0x64, 0x61, 0x74, 0x61, 0, 0, 0];
        let bss_pat: Vec<u8> = vec![0x2Eu8, 0x62, 0x73, 0x73, 0, 0, 0, 0];
        let rdata_pat: Vec<u8> = vec![0x2Eu8, 0x72, 0x64, 0x61, 0x74, 0x61, 0, 0];
        proof {
            assert(text_pat@ =~= raw_name_text());
            assert(data_pat@ =~= raw_name_data());
            assert(bss_pat@ =~= raw_name_bss());
            assert(rdata_pat@ =~= raw_name_rdata());
        }
        let text_bytes = collect_kind(file, text_pat.as_slice());
        let data_bytes = collect_kind(file, data_pat.as_slice());
        let bss_bytes = collect_kind(file, bss_pat.as_slice());
        let rdata_bytes = collect_kind(file, rdata_pat.as_slice());
        add_to_slot(&mut self.mtext, ".mtext", text_bytes, file.filename.as_str());
        add_to_slot(&mut self.mdata, ".mdata", data_bytes, file.filename.as_str());
        add_to_slot(&mut self.mbss, ".mbss", bss_bytes, file.filename.as_str());
        add_to_slot(&mut self.mrdata, ".mrdata", rdata_bytes, file.filename.as_str());
    }
}

/// Appends one object's contribution to one output-kind slot, creating
/// the builder on first use.
fn add_to_slot(slot: &mut Option<SectionBuilder>, kind_name: &str, data: Vec<u8>, filename: &str)
    requires
        match *old(slot) {
            Some(b) => b.wf() && b.name@ == kind_name@ && !b.offsets().contains_key(filename@)
                && b.bytes@.len() + data@.len() <= u32::MAX,
            None => true,
        },
        data@.len() <= u32::MAX,
    ensures
        builder_updated(*old(slot), *final(slot), kind_name@, filename@, data@),
        match *final(slot) {
            Some(b) => b.wf() && b.name@ == kind_name@,
            None => *old(slot) is None,
        },
{
    if data.len() == 0 {
        return ;
    }
    if slot.is_none() {
        let b = SectionBuilder::new(kind_name.to_owned());
        *slot = Some(b);
    }
    match slot {
        Some(b) => {
            b.add_bytes(data.as_slice(), filename);
        },
        None => {
            proof {
                assert(false);
            }
        },
    }
}


/// The length of the bytes a slot holds.
pub open spec fn slot_len(o: Option<SectionBuilder>) -> int {
    match o {
        Some(b) => b.bytes@.len() as int,
        None => 0,
    }
}

impl SectionMap {
    /// Total bytes held across the four builders.
    pub open spec fn total_len(self) -> int {
        slot_len(self.mbss) + slot_len(self.mdata) + slot_len(self.mrdata) + slot_len(self.mtext)
    }

    /// One output kind's state after combining a list of objects: absent
    /// when nothing contributed, else the concatenated bytes with each
    /// file's start offset, at virtual address 0.
    pub open spec fn slot_combined(
        o: Option<SectionBuilder>,
        files: Seq<ObjectFile>,
        pat: Seq<u8>,
        kind_name: Seq<char>,
    ) -> bool {
        if combined_all(files, pat).len() == 0 {
            o is None
        } else {
            match o {
                None => false,
                Some(b) => {
                    &&& b.name@ == kind_name
                    &&& b.bytes@ == combined_all(files, pat)
                    &&& b.offsets() == offsets_all(files, pat)
                    &&& b.virtual_address == 0
                },
            }
        }
    }

    /// Combines the `.text`, `.data`, `.bss` and `.rdata` sections of the
    /// given objects, in input order, into the four output builders.
    pub fn from_data(files: &[ObjectFile]) -> (r: SectionMap)
        requires
            forall|i: int| 0 <= i < files@.len() ==> (#[trigger] files@[i]).wf(),
            forall|i: int, j: int|
                0 <= i < j < files@.len() ==> (#[trigger] files@[i]).filename@ != (
                #[trigger] files@[j]).filename@,
            combined_all(files@, raw_name_text()).len() <= u32::MAX,
            combined_all(files@, raw_name_data()).len() <= u32::MAX,
            combined_all(files@, raw_name_bss()).len() <= u32::MAX,
            combined_all(files@, raw_name_rdata()).len() <= u32::MAX,
        ensures
            r.wf(),
            SectionMap::slot_combined(r.mtext, files@, raw_name_text(), ".mtext"@),
            SectionMap::slot_combined(r.mdata, files@, raw_name_data(), ".mdata"@),
            SectionMap::slot_combined(r.mbss, files@, raw_name_bss(), ".mbss"@),
            SectionMap::slot_combined(r.mrdata, files@, raw_name_rdata(), ".mrdata"@),
    {
        let n = files.len();
        let mut map = SectionMap::new();
        let mut i: usize = 0;
        while i < n
            invariant
                n == files@.len(),
                i <= n,
                forall|k: int| 0 <= k < n ==> (#[trigger] files@[k]).wf(),
                forall|k: int, j: int|
                    0 <= k < j < n ==> (#[trigger] files@[k]).filename@ != (
                    #[trigger] files@[j]).filename@,
                combined_all(files@, raw_name_text()).len() <= u32::MAX,
                combined_all(files@, raw_name_data()).len() <= u32::MAX,
                combined_all(files@, raw_name_bss()).len() <= u32::MAX,
                combined_all(files@, raw_name_rdata()).len() <= u32::MAX,
                map.wf(),
                SectionMap::slot_combined(
                    map.mtext,
                    files@.take(i as int),
                    raw_name_text(),
                    ".mtext"@,
                ),
                SectionMap::slot_combined(
                    map.mdata,
                    files@.take(i as int),
                    raw_name_data(),
                    ".mdata"@,
                ),
                SectionMap::slot_combined(
                    map.mbss,
                    files@.take(i as int),
                    raw_name_bss(),
                    ".mbss"@,
                ),
                SectionMap::slot_combined(
                    map.mrdata,
                    files@.take(i as int),
                    raw_name_rdata(),
                    ".mrdata"@,
                ),
            decreases n - i,
        {
            proof {
                lemma_from_data_step(files@, i as int, map);
            }
            let file = &files[i];
            let ghost before = map;
            map.add_object(file);
            proof {
                lemma_slot_combined_step(
                    files@,
                    i as int,
                    before.mtext,
                    map.mtext,
                    raw_name_text(),
                    ".mtext"@,
                );
                lemma_slot_combined_step(
                    files@,
                    i as int,
                    before.mdata,
                    map.mdata,
                    raw_name_data(),
                    ".mdata"@,
                );
                lemma_slot_combined_step(
                    files@,
                    i as int,
                    before.mbss,
                    map.mbss,
                    raw_name_bss(),
                    ".mbss"@,
                );
                lemma_slot_combined_step(
                    files@,
                    i as int,
                    before.mrdata,
                    map.mrdata,
                    raw_name_rdata(),
                    ".mrdata"@,
                );
            }
            i = i + 1;
        }
        proof {
            assert(files@.take(n as int) =~= files@);
        }
        map
    }

    /// The builder a NUL-trimmed input-section name maps to, if any.
    pub fn get(&self, section: &[u8]) -> (r: Option<&SectionBuilder>)
        ensures
            match r {
                Some(b) => spec_output_kind(section@) matches Some(k) && self.spec_get(k)
                    == Some(*b),
                None => match spec_output_kind(section@) {
                    Some(k) => self.spec_get(k) is None,
                    None => true,
                },
            },
    {
        let kind = match output_kind(section) {
            Some(k) => k,
            None => {
                return None;
            },
        };
        match kind {
            OutputKind::Text => self.mtext.as_ref(),
            OutputKind::Data => self.mdata.as_ref(),
            OutputKind::Bss => self.mbss.as_ref(),
            OutputKind::Rdata => self.mrdata.as_ref(),
        }
    }

    /// The virtual-address cursor after laying out one slot.
    pub open spec fn cursor_after(start: int, o: Option<SectionBuilder>) -> int {
        match o {
            Some(b) => round_up(start + b.bytes@.len(), 0x20),
            None => start,
        }
    }

    /// Every present builder sits at the address the layout cursor gave
    /// it: the first 32-byte-aligned address after the image, each later
    /// builder after its predecessors, in ascending name order.
    pub open spec fn spec_assigned(self, xbe: crate::xbe::Xbe) -> bool {
        let s0 = xbe.spec_next_virtual_address();
        let s1 = Self::cursor_after(s0, self.mbss);
        let s2 = Self::cursor_after(s1, self.mdata);
        let s3 = Self::cursor_after(s2, self.mrdata);
        &&& (self.mbss matches Some(b) ==> b.virtual_address == s0)
        &&& (self.mdata matches Some(b) ==> b.virtual_address == s1)
        &&& (self.mrdata matches Some(b) ==> b.virtual_address == s2)
        &&& (self.mtext matches Some(b) ==> b.virtual_address == s3)
    }

    /// Assigns each present builder its virtual address: the image's next
    /// free 32-byte-aligned address, advancing past each builder in
    /// ascending name order.
    pub fn assign_addresses(&mut self, xbe: &crate::xbe::Xbe)
        requires
            old(self).wf(),
            xbe.wf(),
            xbe.spec_next_virtual_address() + old(self).total_len() + 0x80 <= u32::MAX,
        ensures
            final(self).wf(),
            final(self).spec_assigned(*xbe),
            slot_same_but_va(old(self).mbss, final(self).mbss),
            slot_same_but_va(old(self).mdata, final(self).mdata),
            slot_same_but_va(old(self).mrdata, final(self).mrdata),
            slot_same_but_va(old(self).mtext, final(self).mtext),
            final(self).mbss matches Some(b) ==> b.virtual_address % 0x20 == 0,
            final(self).mdata matches Some(b) ==> b.virtual_address % 0x20 == 0,
            final(self).mrdata matches Some(b) ==> b.virtual_address % 0x20 == 0,
            final(self).mtext matches Some(b) ==> b.virtual_address % 0x20 == 0,
            xbe.spec_next_virtual_address() > 0 ==> (final(self).mbss matches Some(b)
                ==> b.virtual_address > 0),
            xbe.spec_next_virtual_address() > 0 ==> (final(self).mdata matches Some(b)
                ==> b.virtual_address > 0),
            xbe.spec_next_virtual_address() > 0 ==> (final(self).mrdata matches Some(b)
                ==> b.virtual_address > 0),
            xbe.spec_next_virtual_address() > 0 ==> (final(self).mtext matches Some(b)
                ==> b.virtual_address > 0),
    {
        let mut cursor: u32 = xbe.get_next_virtual_address();
        proof {
            crate::xbe::lemma_next_addresses(*xbe);
        }
        match &mut self.mbss {
            Some(b) => {
                b.virtual_address = cursor;
                proof {
                    crate::bytesutil::lemma_round_up(cursor + b.bytes@.len() as int, 0x20);
                }
                cursor = xbe.get_next_virtual_address_after(cursor + b.bytes.len() as u32);
            },
            None => (),
        }
        match &mut self.mdata {
            Some(b) => {
                b.virtual_address = cursor;
                proof {
                    crate::bytesutil::lemma_round_up(cursor + b.bytes@.len() as int, 0x20);
                }
                cursor = xbe.get_next_virtual_address_after(cursor + b.bytes.len() as u32);
            },
            None => (),
        }
        match &mut self.mrdata {
            Some(b) => {
                b.virtual_address = cursor;
                proof {
                    crate::bytesutil::lemma_round_up(cursor + b.bytes@.len() as int, 0x20);
                }
                cursor = xbe.get_next_virtual_address_after(cursor + b.bytes.len() as u32);
            },
            None => (),
        }
        match &mut self.mtext {
            Some(b) => {
                b.virtual_address = cursor;
            },
            None => (),
        }
    }
}

/// A slot keeps its name, bytes and offsets; only the virtual address may
/// change.
pub open spec fn slot_same_but_va(
    before: Option<SectionBuilder>,
    after: Option<SectionBuilder>,
) -> bool {
    match (before, after) {
        (None, None) => true,
        (Some(ob), Some(b)) => {
            &&& b.name == ob.name
            &&& b.bytes == ob.bytes
            &&& b.file_offset_start == ob.file_offset_start
        },
        _ => false,
    }
}

/// Before merging file `i`, its name is absent from every builder and the
/// length bounds for the merge hold.
proof fn lemma_from_data_step(files: Seq<ObjectFile>, i: int, map: SectionMap)
    requires
        0 <= i < files.len(),
        forall|k: int, j: int|
            0 <= k < j < files.len() ==> (#[trigger] files[k]).filename@ != (
            #[trigger] files[j]).filename@,
        combined_all(files, raw_name_text()).len() <= u32::MAX,
        combined_all(files, raw_name_data()).len() <= u32::MAX,
        combined_all(files, raw_name_bss()).len() <= u32::MAX,
        combined_all(files, raw_name_rdata()).len() <= u32::MAX,
        SectionMap::slot_combined(map.mtext, files.take(i), raw_name_text(), ".mtext"@),
        SectionMap::slot_combined(map.mdata, files.take(i), raw_name_data(), ".mdata"@),
        SectionMap::slot_combined(map.mbss, files.take(i), raw_name_bss(), ".mbss"@),
        SectionMap::slot_combined(map.mrdata, files.take(i), raw_name_rdata(), ".mrdata"@),
    ensures
        map.mtext matches Some(b) ==> !b.offsets().contains_key(files[i].filename@)
            && b.bytes@.len() + combined(files[i].coff.sections@, raw_name_text()).len()
            <= u32::MAX,
        map.mdata matches Some(b) ==> !b.offsets().contains_key(files[i].filename@)
            && b.bytes@.len() + combined(files[i].coff.sections@, raw_name_data()).len()
            <= u32::MAX,
        map.mbss matches Some(b) ==> !b.offsets().contains_key(files[i].filename@)
            && b.bytes@.len() + combined(files[i].coff.sections@, raw_name_bss()).len()
            <= u32::MAX,
        map.mrdata matches Some(b) ==> !b.offsets().contains_key(files[i].filename@)
            && b.bytes@.len() + combined(files[i].coff.sections@, raw_name_rdata()).len()
            <= u32::MAX,
        combined(files[i].coff.sections@, raw_name_text()).len() <= u32::MAX,
        combined(files[i].coff.sections@, raw_name_data()).len() <= u32::MAX,
        combined(files[i].coff.sections@, raw_name_bss()).len() <= u32::MAX,
        combined(files[i].coff.sections@, raw_name_rdata()).len() <= u32::MAX,
{
    lemma_from_data_step_kind(files, i, map.mtext, raw_name_text(), ".mtext"@);
    lemma_from_data_step_kind(files, i, map.mdata, raw_name_data(), ".mdata"@);
    lemma_from_data_step_kind(files, i, map.mbss, raw_name_bss(), ".mbss"@);
    lemma_from_data_step_kind(files, i, map.mrdata, raw_name_rdata(), ".mrdata"@);
}

/// One kind's share of `lemma_from_data_step`.
proof fn lemma_from_data_step_kind(
    files: Seq<ObjectFile>,
    i: int,
    o: Option<SectionBuilder>,
    pat: Seq<u8>,
    kind_name: Seq<char>,
)
    requires
        0 <= i < files.len(),
        forall|k: int, j: int|
            0 <= k < j < files.len() ==> (#[trigger] files[k]).filename@ != (
            #[trigger] files[j]).filename@,
        combined_all(files, pat).len() <= u32::MAX,
        SectionMap::slot_combined(o, files.take(i), pat, kind_name),
    ensures
        o matches Some(b) ==> !b.offsets().contains_key(files[i].filename@) && b.bytes@.len()
            + combined(files[i].coff.sections@, pat).len() <= u32::MAX,
        combined(files[i].coff.sections@, pat).len() <= u32::MAX,
{
    lemma_combined_all_prefix(files, pat, i + 1);
    assert(files.take(i + 1).drop_last() =~= files.take(i));
    assert(files.take(i + 1).last() == files[i]);
    assert(combined_all(files.take(i + 1), pat) == combined_all(files.take(i), pat) + combined(
        files[i].coff.sections@,
        pat,
    ));
    match o {
        Some(b) => {
            lemma_offsets_all_keys(files.take(i), pat);
            if b.offsets().contains_key(files[i].filename@) {
                let j = choose|j: int|
                    0 <= j < files.take(i).len() && (#[trigger] files.take(i)[j]).filename@
                        == files[i].filename@;
                assert(files[j].filename@ == files[i].filename@);
                assert(false);
            }
        },
        None => (),
    }
}


/// No contribution means no recorded offsets.
proof fn lemma_offsets_all_empty(files: Seq<ObjectFile>, pat: Seq<u8>)
    requires
        combined_all(files, pat).len() == 0,
    ensures
        offsets_all(files, pat) == Map::<Seq<char>, u32>::empty(),
    decreases files.len(),
{
    if files.len() > 0 {
        assert(combined_all(files.drop_last(), pat).len() == 0);
        lemma_offsets_all_empty(files.drop_last(), pat);
    }
}

/// Merging one object advances a slot from the first `i` files to the
/// first `i + 1`.
proof fn lemma_slot_combined_step(
    files: Seq<ObjectFile>,
    i: int,
    before: Option<SectionBuilder>,
    after: Option<SectionBuilder>,
    pat: Seq<u8>,
    kind_name: Seq<char>,
)
    requires
        0 <= i < files.len(),
        SectionMap::slot_combined(before, files.take(i), pat, kind_name),
        builder_updated(
            before,
            after,
            kind_name,
            files[i].filename@,
            combined(files[i].coff.sections@, pat),
        ),
    ensures
        SectionMap::slot_combined(after, files.take(i + 1), pat, kind_name),
{
    assert(files.take(i + 1).drop_last() =~= files.take(i));
    assert(files.take(i + 1).last() == files[i]);
    let prev_bytes = combined_all(files.take(i), pat);
    let piece = combined(files[i].coff.sections@, pat);
    assert(combined_all(files.take(i + 1), pat) == prev_bytes + piece);
    if piece.len() == 0 {
        assert(prev_bytes + piece =~= prev_bytes);
    } else {
        match before {
            None => {
                assert(prev_bytes.len() == 0);
                assert(prev_bytes + piece =~= piece);
                lemma_offsets_all_empty(files.take(i), pat);
            },
            Some(_) => (),
        }
    }
}

/// After merging file `i`, each slot matches the combination of the first
/// `i + 1` files.
proof fn lemma_from_data_after(files: Seq<ObjectFile>, i: int)
    requires
        0 <= i < files.len(),
    ensures
        files.take(i + 1).drop_last() == files.take(i),
        files.take(i + 1).last() == files[i],
{
    assert(files.take(i + 1).drop_last() =~= files.take(i));
}


/// The bytes of an output-section name, NUL-terminated.
pub open spec fn mbss_name_bytes() -> Seq<u8> {
    seq![0x2Eu8, 0x6Du8, 0x62u8, 0x73u8, 0x73u8, 0u8]
}

/// The bytes of `.mdata`, NUL-terminated.
pub open spec fn mdata_name_bytes() -> Seq<u8> {
    seq![0x2Eu8, 0x6Du8, 0x64u8, 0x61u8, 0x74u8, 0x61u8, 0u8]
}

/// The bytes of `.mrdata`, NUL-terminated.
pub open spec fn mrdata_name_bytes() -> Seq<u8> {
    seq![0x2Eu8, 0x6Du8, 0x72u8, 0x64u8, 0x61u8, 0x74u8, 0x61u8, 0u8]
}

/// The bytes of `.mtext`, NUL-terminated.
pub open spec fn mtext_name_bytes() -> Seq<u8> {
    seq![0x2Eu8, 0x6Du8, 0x74u8, 0x65u8, 0x78u8, 0x74u8, 0u8]
}


/// Appends one builder to the image as a new section.
fn append_slot(xbe: &mut crate::xbe::Xbe, b: SectionBuilder, name: Vec<u8>, flags: u32)
    requires
        old(xbe).wf(),
        b.wf(),
        1 <= b.bytes@.len(),
        1 <= name@.len() <= 0x100,
        b.virtual_address % 0x20 == 0,
        b.virtual_address >= old(xbe).spec_next_virtual_address(),
        old(xbe).sections@.len() > 0 ==> b.virtual_address > old(
            xbe
        ).sections@.last().virtual_address,
        old(xbe).sections@.len() < 0x1000,
        b.virtual_address + b.bytes@.len() + 0x20 <= u32::MAX,
        old(xbe).spec_next_raw_address() + b.bytes@.len() + 0x1000 <= u32::MAX,
        crate::xbe::spec_data_blob_len(old(xbe).sections@) + b.bytes@.len() + 0x1000
            <= 0x4000_0000,
    ensures
        final(xbe).wf(),
        final(xbe).header == old(xbe).header,
        final(xbe).library_versions == old(xbe).library_versions,
        final(xbe).logo_bitmap == old(xbe).logo_bitmap,
        final(xbe).sections@.len() == old(xbe).sections@.len() + 1,
        forall|j: int| 0 <= j < old(xbe).sections@.len() ==> final(xbe).sections@[j] == old(
            xbe
        ).sections@[j],
        appended_section(final(xbe).sections@.last(), b, name@, flags),
        final(xbe).spec_next_virtual_address() == round_up(
            b.virtual_address + b.bytes@.len(),
            0x20,
        ),
        final(xbe).sections@.last().virtual_address == b.virtual_address,
        final(xbe).spec_next_raw_address() <= old(xbe).spec_next_raw_address() + b.bytes@.len()
            + 0x1000,
        crate::xbe::spec_data_blob_len(final(xbe).sections@) <= crate::xbe::spec_data_blob_len(
            old(xbe).sections@,
        ) + b.bytes@.len() + 0x1000,
        crate::xbe::spec_data_blob_len(final(xbe).sections@) >= 0,
{
    proof {
        crate::xbe::lemma_data_blob_len_nonneg(old(xbe).sections@);
        crate::bytesutil::lemma_round_up(
            crate::xbe::spec_data_blob_len(old(xbe).sections@) + b.bytes@.len() as int,
            0x1000,
        );
        crate::xbe::lemma_next_addresses(*old(xbe));
    }
    let vsize = b.bytes.len() as u32;
    let va = b.virtual_address;
    xbe.add_section(name, flags, b.bytes, va, vsize);
    proof {
        let ns = final(xbe).sections@;
        crate::xbe::lemma_next_addresses(*final(xbe));
        crate::bytesutil::lemma_round_up(
            ns.last().raw_address + ns.last().virtual_size as int,
            0x1000,
        );
        crate::bytesutil::lemma_round_up(ns.last().virtual_address + ns.last().virtual_size as int, 0x20);
        crate::xbe::lemma_data_blob_len_nonneg(ns);
        assert(ns.drop_last() =~= old(xbe).sections@);
    }
}



/// The `.mbss` section name with its NUL terminator.
fn mbss_name() -> (r: Vec<u8>)
    ensures
        r@ == mbss_name_bytes(),
{
    let v: Vec<u8> = vec![0x2Eu8, 0x6D, 0x62, 0x73, 0x73, 0];
    proof {
        assert(v@ =~= mbss_name_bytes());
    }
    v
}

/// The `.mdata` section name with its NUL terminator.
fn mdata_name() -> (r: Vec<u8>)
    ensures
        r@ == mdata_name_bytes(),
{
    let v: Vec<u8> = vec![0x2Eu8, 0x6D, 0x64, 0x61, 0x74, 0x61, 0];
    proof {
        assert(v@ =~= mdata_name_bytes());
    }
    v
}

/// The `.mrdata` section name with its NUL terminator.
fn mrdata_name() -> (r: Vec<u8>)
    ensures
        r@ == mrdata_name_bytes(),
{
    let v: Vec<u8> = vec![0x2Eu8, 0x6D, 0x72, 0x64, 0x61, 0x74, 0x61, 0];
    proof {
        assert(v@ =~= mrdata_name_bytes());
    }
    v
}

/// The `.mtext` section name with its NUL terminator.
fn mtext_name() -> (r: Vec<u8>)
    ensures
        r@ == mtext_name_bytes(),
{
    let v: Vec<u8> = vec![0x2Eu8, 0x6D, 0x74, 0x65, 0x78, 0x74, 0];
    proof {
        assert(v@ =~= mtext_name_bytes());
    }
    v
}

/// Appends a slot's builder to the image if present; absent slots change
/// nothing.
#[verifier::rlimit(60)]
#[verifier::spinoff_prover]
fn append_opt_slot(
    xbe: &mut crate::xbe::Xbe,
    o: Option<SectionBuilder>,
    name: Vec<u8>,
    flags: u32,
)
    requires
        old(xbe).wf(),
        1 <= name@.len() <= 0x100,
        match o {
            Some(b) => {
                &&& b.wf()
                &&& 1 <= b.bytes@.len()
                &&& b.virtual_address % 0x20 == 0
                &&& b.virtual_address >= old(xbe).spec_next_virtual_address()
                &&& (old(xbe).sections@.len() > 0 ==> b.virtual_address > old(
                    xbe
                ).sections@.last().virtual_address)
                &&& old(xbe).sections@.len() < 0x1000
                &&& b.virtual_address + b.bytes@.len() + 0x20 <= u32::MAX
                &&& old(xbe).spec_next_raw_address() + b.bytes@.len() + 0x1000 <= u32::MAX
                &&& crate::xbe::spec_data_blob_len(old(xbe).sections@) + b.bytes@.len() + 0x1000
                    <= 0x4000_0000
            },
            None => true,
        },
    ensures
        final(xbe).wf(),
        final(xbe).header == old(xbe).header,
        final(xbe).library_versions == old(xbe).library_versions,
        final(xbe).logo_bitmap == old(xbe).logo_bitmap,
        final(xbe).sections@.len() == old(xbe).sections@.len() + SectionMap::cnt(o),
        forall|j: int| 0 <= j < old(xbe).sections@.len() ==> final(xbe).sections@[j] == old(
            xbe
        ).sections@[j],
        match o {
            Some(b) => {
                &&& appended_section(final(xbe).sections@.last(), b, name@, flags)
                &&& final(xbe).spec_next_virtual_address() == round_up(
                    b.virtual_address + b.bytes@.len(),
                    0x20,
                )
                &&& final(xbe).sections@.last().virtual_address == b.virtual_address
                &&& final(xbe).sections@.len() > 0
                &&& final(xbe).spec_next_raw_address() <= old(xbe).spec_next_raw_address()
                    + b.bytes@.len() + 0x1000
                &&& crate::xbe::spec_data_blob_len(final(xbe).sections@)
                    <= crate::xbe::spec_data_blob_len(old(xbe).sections@) + b.bytes@.len()
                    + 0x1000
                &&& final(xbe).sections@.last().virtual_address < final(
                    xbe
                ).spec_next_virtual_address()
            },
            None => *final(xbe) == *old(xbe),
        },
        crate::xbe::spec_data_blob_len(final(xbe).sections@) >= 0,
{
    proof {
        crate::xbe::lemma_data_blob_len_nonneg(old(xbe).sections@);
        crate::xbe::lemma_next_addresses(*old(xbe));
    }
    match o {
        Some(b) => {
            append_slot(xbe, b, name, flags);
            proof {
                let last = final(xbe).sections@.last();
                crate::bytesutil::lemma_round_up(
                    last.virtual_address + last.virtual_size as int,
                    0x20,
                );
            }
        },
        None => (),
    }
}


/// Appends up to two slots in order.
#[verifier::rlimit(100)]
#[verifier::spinoff_prover]
fn append_pair(
    xbe: &mut crate::xbe::Xbe,
    a: Option<SectionBuilder>,
    name_a: Vec<u8>,
    flags_a: u32,
    b: Option<SectionBuilder>,
    name_b: Vec<u8>,
    flags_b: u32,
)
    requires
        old(xbe).wf(),
        1 <= name_a@.len() <= 0x100,
        1 <= name_b@.len() <= 0x100,
        old(xbe).sections@.len() + 2 <= 0x1000,
        old(xbe).sections@.len() > 0 ==> old(xbe).sections@.last().virtual_address < old(
            xbe
        ).spec_next_virtual_address(),
        match a {
            Some(x) => {
                &&& x.wf()
                &&& 1 <= x.bytes@.len()
                &&& x.virtual_address == old(xbe).spec_next_virtual_address()
                &&& x.virtual_address + x.bytes@.len() + 0x20 <= u32::MAX
            },
            None => true,
        },
        match b {
            Some(y) => {
                &&& y.wf()
                &&& 1 <= y.bytes@.len()
                &&& y.virtual_address == SectionMap::cursor_after(
                    old(xbe).spec_next_virtual_address(),
                    a,
                )
                &&& y.virtual_address + y.bytes@.len() + 0x20 <= u32::MAX
            },
            None => true,
        },
        old(xbe).spec_next_raw_address() + slot_len(a) + slot_len(b) + 0x2800 <= u32::MAX,
        crate::xbe::spec_data_blob_len(old(xbe).sections@) + slot_len(a) + slot_len(b) + 0x2000
            <= 0x4000_0000,
    ensures
        final(xbe).wf(),
        final(xbe).header == old(xbe).header,
        final(xbe).library_versions == old(xbe).library_versions,
        final(xbe).logo_bitmap == old(xbe).logo_bitmap,
        final(xbe).sections@.len() == old(xbe).sections@.len() + SectionMap::cnt(a)
            + SectionMap::cnt(b),
        forall|j: int| 0 <= j < old(xbe).sections@.len() ==> final(xbe).sections@[j] == old(
            xbe
        ).sections@[j],
        a matches Some(x) ==> appended_section(
            final(xbe).sections@[old(xbe).sections@.len() as int],
            x,
            name_a@,
            flags_a,
        ),
        b matches Some(y) ==> appended_section(
            final(xbe).sections@[old(xbe).sections@.len() + SectionMap::cnt(a)],
            y,
            name_b@,
            flags_b,
        ),
        final(xbe).spec_next_virtual_address() == SectionMap::cursor_after(
            SectionMap::cursor_after(old(xbe).spec_next_virtual_address(), a),
            b,
        ),
        final(xbe).sections@.len() > 0 ==> final(xbe).sections@.last().virtual_address < final(
            xbe
        ).spec_next_virtual_address(),
        final(xbe).spec_next_raw_address() <= old(xbe).spec_next_raw_address() + slot_len(a)
            + slot_len(b) + 0x2000,
        crate::xbe::spec_data_blob_len(final(xbe).sections@) <= crate::xbe::spec_data_blob_len(
            old(xbe).sections@,
        ) + slot_len(a) + slot_len(b) + 0x2000,
        crate::xbe::spec_data_blob_len(final(xbe).sections@) >= 0,
{
    let ghost ga = a;
    proof {
        crate::xbe::lemma_data_blob_len_nonneg(old(xbe).sections@);
        crate::xbe::lemma_next_addresses(*old(xbe));
        match ga {
            Some(x) => {
                crate::bytesutil::lemma_round_up(
                    old(xbe).spec_next_virtual_address() + x.bytes@.len() as int,
                    0x20,
                );
            },
            None => (),
        }
    }
    append_opt_slot(xbe, a, name_a, flags_a);
    append_opt_slot(xbe, b, name_b, flags_b);
}

/// What a builder becomes when appended to the image: its bytes as both
/// data and virtual size, at its assigned 32-byte-aligned virtual address
/// and a 0x1000-aligned raw address, with the given name and flags.
pub open spec fn appended_section(
    s: crate::xbe::Section,
    b: SectionBuilder,
    name: Seq<u8>,
    flags: u32,
) -> bool {
    &&& s.name@ == name
    &&& s.flags == flags
    &&& s.data@ == b.bytes@
    &&& s.virtual_address == b.virtual_address
    &&& s.virtual_address % 0x20 == 0
    &&& s.virtual_size == b.bytes@.len()
    &&& s.raw_address % 0x1000 == 0
    &&& s.digest is None
}

impl SectionMap {
    /// How many sections a slot contributes.
    pub open spec fn cnt(o: Option<SectionBuilder>) -> int {
        match o {
            Some(_) => 1,
            None => 0,
        }
    }

    /// Appends each present builder to the image as a new section, in
    /// ascending virtual-address order, with flags chosen by kind.
    #[verifier::rlimit(100)]
    #[verifier::spinoff_prover]
    pub fn finalize(self, xbe: &mut crate::xbe::Xbe)
        requires
            self.wf(),
            old(xbe).wf(),
            self.spec_assigned(*old(xbe)),
            self.mbss matches Some(b) ==> 1 <= b.bytes@.len(),
            self.mdata matches Some(b) ==> 1 <= b.bytes@.len(),
            self.mrdata matches Some(b) ==> 1 <= b.bytes@.len(),
            self.mtext matches Some(b) ==> 1 <= b.bytes@.len(),
            old(xbe).sections@.len() + 4 <= 0x1000,
            old(xbe).sections@.len() > 0 ==> old(xbe).sections@.last().virtual_address < old(
                xbe
            ).spec_next_virtual_address(),
            old(xbe).spec_next_virtual_address() + self.total_len() + 0x80 <= u32::MAX,
            old(xbe).spec_next_raw_address() + self.total_len() + 0x5000 <= u32::MAX,
            crate::xbe::spec_data_blob_len(old(xbe).sections@) + self.total_len() + 0x4000
                <= 0x4000_0000,
        ensures
            final(xbe).wf(),
            final(xbe).header == old(xbe).header,
            final(xbe).library_versions == old(xbe).library_versions,
            final(xbe).logo_bitmap == old(xbe).logo_bitmap,
            final(xbe).sections@.len() == old(xbe).sections@.len() + Self::cnt(self.mbss)
                + Self::cnt(self.mdata) + Self::cnt(self.mrdata) + Self::cnt(self.mtext),
            forall|j: int| 0 <= j < old(xbe).sections@.len() ==> final(xbe).sections@[j] == old(
                xbe
            ).sections@[j],
            self.mbss matches Some(b) ==> appended_section(
                final(xbe).sections@[old(xbe).sections@.len() as int],
                b,
                mbss_name_bytes(),
                (SECTION_FLAG_PRELOAD | SECTION_FLAG_WRITABLE) as u32,
            ),
            self.mdata matches Some(b) ==> appended_section(
                final(xbe).sections@[old(xbe).sections@.len() + Self::cnt(self.mbss)],
                b,
                mdata_name_bytes(),
                (SECTION_FLAG_PRELOAD | SECTION_FLAG_WRITABLE) as u32,
            ),
            self.mrdata matches Some(b) ==> appended_section(
                final(xbe).sections@[old(xbe).sections@.len() + Self::cnt(self.mbss)
                    + Self::cnt(self.mdata)],
                b,
                mrdata_name_bytes(),
                SECTION_FLAG_PRELOAD as u32,
            ),
            self.mtext matches Some(b) ==> appended_section(
                final(xbe).sections@[old(xbe).sections@.len() + Self::cnt(self.mbss)
                    + Self::cnt(self.mdata) + Self::cnt(self.mrdata)],
                b,
                mtext_name_bytes(),
                (SECTION_FLAG_PRELOAD | SECTION_FLAG_EXECUTABLE) as u32,
            ),
    {
        let ghost g = self;
        let SectionMap { mbss, mdata, mrdata, mtext } = self;
        proof {
            crate::xbe::lemma_next_addresses(*old(xbe));
            crate::xbe::lemma_data_blob_len_nonneg(old(xbe).sections@);
            let s0 = old(xbe).spec_next_virtual_address();
            let s1 = SectionMap::cursor_after(s0, g.mbss);
            let s2 = SectionMap::cursor_after(s1, g.mdata);
            let s3 = SectionMap::cursor_after(s2, g.mrdata);
            match g.mbss {
                Some(x) => {
                    crate::bytesutil::lemma_round_up(s0 + x.bytes@.len(), 0x20);
                },
                None => (),
            }
            match g.mdata {
                Some(x) => {
                    crate::bytesutil::lemma_round_up(s1 + x.bytes@.len(), 0x20);
                },
                None => (),
            }
            match g.mrdata {
                Some(x) => {
                    crate::bytesutil::lemma_round_up(s2 + x.bytes@.len(), 0x20);
                },
                None => (),
            }
            match g.mtext {
                Some(x) => {
                    crate::bytesutil::lemma_round_up(s3 + x.bytes@.len(), 0x20);
                },
                None => (),
            }
        }
        append_pair(
            xbe,
            mbss,
            mbss_name(),
            SECTION_FLAG_PRELOAD | SECTION_FLAG_WRITABLE,
            mdata,
            mdata_name(),
            SECTION_FLAG_PRELOAD | SECTION_FLAG_WRITABLE,
        );
        append_pair(
            xbe,
            mrdata,
            mrdata_name(),
            SECTION_FLAG_PRELOAD,
            mtext,
            mtext_name(),
            SECTION_FLAG_PRELOAD | SECTION_FLAG_EXECUTABLE,
        );
    }
}


/// A byte string viewed as characters, one per byte.
pub open spec fn bytes_as_chars(s: Seq<u8>) -> Seq<char> {
    s.map_values(|b: u8| b as char)
}

/// Whether a string names the same characters as a byte string.
pub fn str_eq_bytes(s: &str, b: &[u8]) -> (r: bool)
    ensures
        r == (s@ == bytes_as_chars(b@)),
{
    let n = s.unicode_len();
    if n != b.len() {
        return false;
    }
    let mut i: usize = 0;
    while i < n
        invariant
            i <= n,
            n == s@.len(),
            n == b@.len(),
            forall|j: int| 0 <= j < i ==> s@[j] == bytes_as_chars(b@)[j],
        decreases n - i,
    {
        let c = s.get_char(i);
        let d = b[i] as char;
        if c != d {
            return false;
        }
        i = i + 1;
    }
    proof {
        assert(s@ =~= bytes_as_chars(b@));
    }
    true
}

/// The map a list of `(symbol name, address)` entries denotes; later
/// entries shadow earlier ones.
pub open spec fn sym_map(entries: Seq<(Vec<u8>, u32)>) -> Map<Seq<u8>, u32>
    decreases entries.len(),
{
    if entries.len() == 0 {
        Map::empty()
    } else {
        sym_map(entries.drop_last()).insert(entries.last().0@, entries.last().1)
    }
}

/// Maps each symbol name to its resolved 32-bit virtual address. A name
/// defined more than once keeps its latest definition.
#[derive(Debug)]
pub struct SymbolTable {
    pub entries: Vec<(Vec<u8>, u32)>,
}

impl SymbolTable {
    /// The table as a map.
    pub open spec fn view_map(self) -> Map<Seq<u8>, u32> {
        sym_map(self.entries@)
    }

    /// An empty table.
    pub fn empty() -> (r: SymbolTable)
        ensures
            r.view_map() == Map::<Seq<u8>, u32>::empty(),
    {
        SymbolTable { entries: Vec::new() }
    }

    /// Records (or overwrites) a symbol's address.
    pub fn insert(&mut self, name: Vec<u8>, address: u32)
        ensures
            final(self).view_map() == old(self).view_map().insert(name@, address),
    {
        let ghost prev = self.entries@;
        self.entries.push((name, address));
        proof {
            assert(self.entries@.drop_last() =~= prev);
        }
    }

    /// Looks up a symbol's address.
    pub fn get(&self, name: &[u8]) -> (r: Option<u32>)
        ensures
            match r {
                Some(a) => self.view_map().contains_key(name@) && self.view_map()[name@] == a,
                None => !self.view_map().contains_key(name@),
            },
    {
        let n = self.entries.len();
        let mut i: usize = n;
        proof {
            assert(self.entries@.take(i as int) =~= self.entries@);
        }
        while i > 0
            invariant
                i <= n,
                n == self.entries@.len(),
                sym_map(self.entries@).contains_key(name@) == sym_map(
                    self.entries@.take(i as int),
                ).contains_key(name@),
                sym_map(self.entries@).contains_key(name@) ==> sym_map(
                    self.entries@.take(i as int),
                ).contains_key(name@) && sym_map(self.entries@)[name@] == sym_map(
                    self.entries@.take(i as int),
                )[name@],
            decreases i,
        {
            i = i - 1;
            proof {
                assert(self.entries@.take(i + 1).drop_last() =~= self.entries@.take(i as int));
                assert(self.entries@.take(i + 1).last() == self.entries@[i as int]);
            }
            if bytes_eq(self.entries[i].0.as_slice(), name) {
                return Some(self.entries[i].1);
            }
        }
        proof {
            assert(self.entries@.take(0) =~= Seq::<(Vec<u8>, u32)>::empty());
        }
        None
    }
}

/// The address (if any) the patch list gives a symbol: the virtual
/// address of the first patch whose start symbol carries that name.
pub open spec fn find_patch_va(patches: Seq<crate::patch::Patch>, name: Seq<u8>, i: int) -> Option<
    u32,
>
    decreases patches.len() - i,
{
    if i < 0 || i >= patches.len() {
        None
    } else if patches[i].start_symbol_name@ == bytes_as_chars(name) {
        Some(patches[i].virtual_address)
    } else {
        find_patch_va(patches, name, i + 1)
    }
}

/// Finds the first patch whose start symbol has the given name.
fn find_patch_address(patches: &[crate::patch::Patch], name: &[u8]) -> (r: Option<u32>)
    ensures
        r == find_patch_va(patches@, name@, 0),
{
    let n = patches.len();
    let mut i: usize = 0;
    while i < n
        invariant
            i <= n,
            n == patches@.len(),
            find_patch_va(patches@, name@, 0) == find_patch_va(patches@, name@, i as int),
        decreases n - i,
    {
        if str_eq_bytes(patches[i].start_symbol_name.as_str(), name) {
            return Some(patches[i].virtual_address);
        }
        i = i + 1;
    }
    None
}

/// What the resolver does with one symbol: record an address, pass over
/// it, or reject its storage class.
pub enum SymStep {
    Skip,
    Put(u32),
    Reject,
}

/// The resolver's decision for one symbol, following the storage-class
/// rules: defined EXTERNAL function symbols resolve to their place in the
/// merged section (or, for patch-anchored symbols, to the patch address);
/// other defined EXTERNAL symbols to their place in the merged section;
/// STATIC symbols mark a section start and ignore their value; FILE
/// records are skipped; anything else is rejected.
pub open spec fn spec_sym_step(
    map: SectionMap,
    patches: Seq<crate::patch::Patch>,
    obj: ObjectFile,
    sym: CoffSymbol,
) -> SymStep {
    if sym.section_number == SECTION_NUMBER_UNDEFINED || sym.section_number
        == SECTION_NUMBER_ABSOLUTE || sym.section_number == SECTION_NUMBER_DEBUG {
        SymStep::Skip
    } else {
        let sec = obj.coff.sections@[sym.section_number - 1];
        match spec_output_kind(crate::coff::spec_trim_nul(sec.name@)) {
            None => SymStep::Skip,
            Some(kind) => match map.spec_get(kind) {
                None => SymStep::Skip,
                Some(b) => {
                    if sym.storage_class == IMAGE_SYM_CLASS_EXTERNAL && sym.typ == 0x20 {
                        if b.offsets().contains_key(obj.filename@) {
                            SymStep::Put(
                                wrap_add32(
                                    wrap_add32(b.offsets()[obj.filename@], sym.value),
                                    b.virtual_address,
                                ),
                            )
                        } else {
                            match find_patch_va(patches, sym.name@, 0) {
                                Some(va) => SymStep::Put(va),
                                None => SymStep::Skip,
                            }
                        }
                    } else if sym.storage_class == IMAGE_SYM_CLASS_EXTERNAL {
                        if b.offsets().contains_key(obj.filename@) {
                            SymStep::Put(
                                wrap_add32(
                                    wrap_add32(b.offsets()[obj.filename@], sym.value),
                                    b.virtual_address,
                                ),
                            )
                        } else {
                            SymStep::Skip
                        }
                    } else if sym.storage_class == IMAGE_SYM_CLASS_STATIC {
                        if b.offsets().contains_key(obj.filename@) {
                            SymStep::Put(
                                wrap_add32(b.offsets()[obj.filename@], b.virtual_address),
                            )
                        } else {
                            SymStep::Skip
                        }
                    } else if sym.storage_class == IMAGE_SYM_CLASS_FILE {
                        SymStep::Skip
                    } else {
                        SymStep::Reject
                    }
                },
            },
        }
    }
}

/// The table after resolving one object's symbols from index `i` on, or
/// the rejected storage class.
pub open spec fn spec_extract(
    t: Map<Seq<u8>, u32>,
    map: SectionMap,
    patches: Seq<crate::patch::Patch>,
    obj: ObjectFile,
    i: int,
) -> Result<Map<Seq<u8>, u32>, u8>
    decreases obj.coff.symbols@.len() - i,
{
    if i < 0 || i >= obj.coff.symbols@.len() {
        Ok(t)
    } else {
        let sym = obj.coff.symbols@[i];
        match spec_sym_step(map, patches, obj, sym) {
            SymStep::Reject => Err(sym.storage_class),
            SymStep::Skip => spec_extract(t, map, patches, obj, i + 1),
            SymStep::Put(a) => spec_extract(t.insert(sym.name@, a), map, patches, obj, i + 1),
        }
    }
}

impl SymbolTable {
    /// Resolves one object's symbols into the table, following the
    /// storage-class rules of `spec_sym_step`. Later definitions
    /// overwrite earlier ones.
    pub fn extract_symbols(
        &mut self,
        section_map: &SectionMap,
        obj: &ObjectFile,
        patches: &[crate::patch::Patch],
    ) -> (r: Result<(), crate::error::Error>)
        requires
            obj.wf(),
            section_map.wf(),
        ensures
            match r {
                Ok(()) => spec_extract(
                    old(self).view_map(),
                    *section_map,
                    patches@,
                    *obj,
                    0,
                ) == Ok::<_, u8>(final(self).view_map()),
                Err(crate::error::Error::UnsupportedStorageClass(f, c)) => {
                    &&& spec_extract(old(self).view_map(), *section_map, patches@, *obj, 0)
                        == Err::<Map<Seq<u8>, u32>, _>(c)
                    &&& f@ == obj.filename@
                },
                Err(_) => false,
            },
    {
        let n = obj.coff.symbols.len();
        let mut i: usize = 0;
        while i < n
            invariant
                obj.wf(),
                section_map.wf(),
                i <= n,
                n == obj.coff.symbols@.len(),
                spec_extract(old(self).view_map(), *section_map, patches@, *obj, 0)
                    == spec_extract(self.view_map(), *section_map, patches@, *obj, i as int),
            decreases n - i,
        {
            let sym = &obj.coff.symbols[i];
            if sym.section_number == SECTION_NUMBER_UNDEFINED || sym.section_number
                == SECTION_NUMBER_ABSOLUTE || sym.section_number == SECTION_NUMBER_DEBUG {
                i = i + 1;
                continue ;
            }
            let sec = &obj.coff.sections[(sym.section_number - 1) as usize];
            let trimmed = crate::coff::trim_nul(sec.name.as_slice());
            let kind = match output_kind(trimmed.as_slice()) {
                Some(k) => k,
                None => {
                    i = i + 1;
                    continue ;
                },
            };
            let builder = match section_map.get_by_kind(kind) {
                Some(b) => b,
                None => {
                    i = i + 1;
                    continue ;
                },
            };
            if sym.storage_class == IMAGE_SYM_CLASS_EXTERNAL && sym.typ == 0x20 {
                match builder.file_offset(obj.filename.as_str()) {
                    Some(off) => {
                        let a = wrapping_add_u32(
                            wrapping_add_u32(off, sym.value),
                            builder.virtual_address,
                        );
                        self.insert(clone_name(&sym.name), a);
                    },
                    None => {
                        match find_patch_address(patches, sym.name.as_slice()) {
                            Some(va) => {
                                self.insert(clone_name(&sym.name), va);
                            },
                            None => (),
                        }
                    },
                }
            } else if sym.storage_class == IMAGE_SYM_CLASS_EXTERNAL {
                match builder.file_offset(obj.filename.as_str()) {
                    Some(off) => {
                        let a = wrapping_add_u32(
                            wrapping_add_u32(off, sym.value),
                            builder.virtual_address,
                        );
                        self.insert(clone_name(&sym.name), a);
                    },
                    None => (),
                }
            } else if sym.storage_class == IMAGE_SYM_CLASS_STATIC {
                match builder.file_offset(obj.filename.as_str()) {
                    Some(off) => {
                        let a = wrapping_add_u32(off, builder.virtual_address);
                        self.insert(clone_name(&sym.name), a);
                    },
                    None => (),
                }
            } else if sym.storage_class == IMAGE_SYM_CLASS_FILE {
            } else {
                return Err(
                    crate::error::Error::UnsupportedStorageClass(
                        clone_string(&obj.filename),
                        sym.storage_class,
                    ),
                );
            }
            i = i + 1;
        }
        Ok(())
    }
}

/// A fresh copy of a symbol name.
fn clone_name(v: &Vec<u8>) -> (r: Vec<u8>)
    ensures
        r@ == v@,
{
    vstd::slice::slice_to_vec(v.as_slice())
}

/// A fresh copy of a string.
fn clone_string(s: &String) -> (r: String)
    ensures
        r@ == s@,
{
    s.as_str().to_owned()
}

impl SectionMap {
    /// The builder for one output kind, if present.
    pub fn get_by_kind(&self, kind: OutputKind) -> (r: Option<&SectionBuilder>)
        ensures
            match r {
                Some(b) => self.spec_get(kind) == Some(*b),
                None => self.spec_get(kind) is None,
            },
    {
        match kind {
            OutputKind::Text => self.mtext.as_ref(),
            OutputKind::Data => self.mdata.as_ref(),
            OutputKind::Bss => self.mbss.as_ref(),
            OutputKind::Rdata => self.mrdata.as_ref(),
        }
    }
}


/// First symbol (in table order) with the given raw table index.
pub open spec fn spec_symbol_by_index(syms: Seq<CoffSymbol>, idx: u32, i: int) -> Option<int>
    decreases syms.len() - i,
{
    if i < 0 || i >= syms.len() {
        None
    } else if syms[i].index == idx {
        Some(i)
    } else {
        spec_symbol_by_index(syms, idx, i + 1)
    }
}

/// Finds the symbol with the given raw table index.
fn find_symbol_by_index(syms: &Vec<CoffSymbol>, idx: u32) -> (r: Option<&CoffSymbol>)
    ensures
        match r {
            Some(sym) => spec_symbol_by_index(syms@, idx, 0) matches Some(i) && syms@[i]
                == *sym,
            None => spec_symbol_by_index(syms@, idx, 0) is None,
        },
{
    let n = syms.len();
    let mut i: usize = 0;
    while i < n
        invariant
            i <= n,
            n == syms@.len(),
            spec_symbol_by_index(syms@, idx, 0) == spec_symbol_by_index(syms@, idx, i as int),
        decreases n - i,
    {
        if syms[i].index == idx {
            return Some(&syms[i]);
        }
        i = i + 1;
    }
    None
}

/// Evaluates one relocation record against the symbol table and writes
/// the fix-up into the output section's bytes.
///
/// For `IMAGE_REL_I386_DIR32` the 32-bit word at the relocation site
/// (the contributing file's start offset plus the record's address) gets
/// the symbol's address added, modulo `2^32`. For `IMAGE_REL_I386_REL32`
/// it gets `S - (site + section base + 4)` added, where `S` is the
/// symbol's address: the distance from the next instruction. Nothing
/// else changes.
pub fn perform_relocation(
    reloc: &CoffRelocation,
    file: &ObjectFile,
    symbol_table: &SymbolTable,
    section_data: &mut SectionBuilder,
) -> (r: Result<(), RelocationError>)
    requires
        file.wf(),
        old(section_data).wf(),
    ensures
        final(section_data).wf(),
        final(section_data).name == old(section_data).name,
        final(section_data).virtual_address == old(section_data).virtual_address,
        final(section_data).file_offset_start == old(section_data).file_offset_start,
        final(section_data).bytes@.len() == old(section_data).bytes@.len(),
        match r {
            Ok(()) => {
                &&& spec_symbol_by_index(file.coff.symbols@, reloc.symbol_table_index, 0)
                    matches Some(si)
                &&& {
                    let sym = file.coff.symbols@[
                        spec_symbol_by_index(
                            file.coff.symbols@,
                            reloc.symbol_table_index,
                            0,
                        )->Some_0
                    ];
                    let table = symbol_table.view_map();
                    &&& table.contains_key(sym.name@)
                    &&& old(section_data).offsets().contains_key(file.filename@)
                    &&& {
                        let s_addr = table[sym.name@];
                        let d = old(section_data).offsets()[file.filename@]
                            + reloc.virtual_address;
                        &&& d + 4 <= old(section_data).bytes@.len()
                        &&& (reloc.typ == IMAGE_REL_I386_DIR32 || reloc.typ
                            == IMAGE_REL_I386_REL32)
                        &&& (reloc.typ == IMAGE_REL_I386_DIR32 ==> spec_u32_from_le_bytes(
                            final(section_data).bytes@.subrange(d, d + 4),
                        ) == wrap_add32(
                            spec_u32_from_le_bytes(old(section_data).bytes@.subrange(d, d + 4)),
                            s_addr,
                        ))
                        &&& (reloc.typ == IMAGE_REL_I386_REL32 ==> spec_u32_from_le_bytes(
                            final(section_data).bytes@.subrange(d, d + 4),
                        ) == wrap_add32(
                            spec_u32_from_le_bytes(old(section_data).bytes@.subrange(d, d + 4)),
                            wrap_sub32(
                                s_addr,
                                wrap_add32(
                                    wrap_add32(d as u32, old(section_data).virtual_address),
                                    4,
                                ),
                            ),
                        ))
                        &&& forall|i: int|
                            0 <= i < old(section_data).bytes@.len() && !(d <= i < d + 4)
                                ==> final(section_data).bytes@[i] == old(
                                section_data
                            ).bytes@[i]
                    }
                }
            },
            Err(RelocationError::SymbolIndex(ix)) => {
                &&& spec_symbol_by_index(file.coff.symbols@, reloc.symbol_table_index, 0)
                    is None
                &&& ix == reloc.symbol_table_index
                &&& final(section_data).bytes == old(section_data).bytes
            },
            Err(RelocationError::SymbolAddress(n)) => {
                &&& spec_symbol_by_index(file.coff.symbols@, reloc.symbol_table_index, 0)
                    matches Some(si) && !symbol_table.view_map().contains_key(
                    file.coff.symbols@[si].name@,
                ) && n@ == file.coff.symbols@[si].name@
                &&& final(section_data).bytes == old(section_data).bytes
            },
            Err(RelocationError::Unsupported(t, _)) => {
                &&& t == reloc.typ
                &&& t != IMAGE_REL_I386_DIR32 && t != IMAGE_REL_I386_REL32
                &&& final(section_data).bytes == old(section_data).bytes
            },
            Err(RelocationError::SectionOffset(_)) => {
                &&& !old(section_data).offsets().contains_key(file.filename@)
                &&& final(section_data).bytes == old(section_data).bytes
            },
            Err(RelocationError::OutOfBounds(_)) => {
                &&& old(section_data).offsets().contains_key(file.filename@)
                &&& old(section_data).offsets()[file.filename@] + reloc.virtual_address + 4
                    > old(section_data).bytes@.len()
                &&& final(section_data).bytes == old(section_data).bytes
            },
        },
        spec_symbol_by_index(file.coff.symbols@, reloc.symbol_table_index, 0) is None ==> (
        r matches Err(RelocationError::SymbolIndex(ix)) && ix == reloc.symbol_table_index),
        ({
            let sio = spec_symbol_by_index(file.coff.symbols@, reloc.symbol_table_index, 0);
            let table = symbol_table.view_map();
            let offs = old(section_data).offsets();
            &&& (sio is Some && !table.contains_key(file.coff.symbols@[sio->Some_0].name@)
                ==> (r matches Err(RelocationError::SymbolAddress(n)) && n@
                == file.coff.symbols@[sio->Some_0].name@))
            &&& (sio is Some && table.contains_key(file.coff.symbols@[sio->Some_0].name@)
                && reloc.typ != IMAGE_REL_I386_DIR32 && reloc.typ != IMAGE_REL_I386_REL32 ==> (
            r matches Err(RelocationError::Unsupported(t, _)) && t == reloc.typ))
            &&& (sio is Some && table.contains_key(file.coff.symbols@[sio->Some_0].name@)
                && (reloc.typ == IMAGE_REL_I386_DIR32 || reloc.typ == IMAGE_REL_I386_REL32)
                && !offs.contains_key(file.filename@) ==> r matches Err(
                RelocationError::SectionOffset(_),
            ))
            &&& (sio is Some && table.contains_key(file.coff.symbols@[sio->Some_0].name@)
                && (reloc.typ == IMAGE_REL_I386_DIR32 || reloc.typ == IMAGE_REL_I386_REL32)
                && offs.contains_key(file.filename@) && offs[file.filename@]
                + reloc.virtual_address + 4 > old(section_data).bytes@.len() ==> r matches Err(
                RelocationError::OutOfBounds(_),
            ))
            &&& (sio is Some && table.contains_key(file.coff.symbols@[sio->Some_0].name@)
                && (reloc.typ == IMAGE_REL_I386_DIR32 || reloc.typ == IMAGE_REL_I386_REL32)
                && offs.contains_key(file.filename@) && offs[file.filename@]
                + reloc.virtual_address + 4 <= old(section_data).bytes@.len() ==> r is Ok)
        }),
{
    let sym = match find_symbol_by_index(&file.coff.symbols, reloc.symbol_table_index) {
        Some(s) => s,
        None => {
            return Err(RelocationError::SymbolIndex(reloc.symbol_table_index));
        },
    };
    let target_address = match symbol_table.get(sym.name.as_slice()) {
        Some(a) => a,
        None => {
            return Err(RelocationError::SymbolAddress(clone_name(&sym.name)));
        },
    };
    if reloc.typ == IMAGE_REL_I386_DIR32 {
        section_data.relative_update_u32(
            file.filename.as_str(),
            reloc.virtual_address,
            target_address,
        )
    } else if reloc.typ == IMAGE_REL_I386_REL32 {
        let off = match section_data.file_offset(file.filename.as_str()) {
            Some(o) => o,
            None => {
                return Err(RelocationError::SectionOffset(section_data.name.clone()));
            },
        };
        let sec_address_64: u64 = off as u64 + reloc.virtual_address as u64;
        if sec_address_64 + 4 > section_data.bytes.len() as u64 {
            return Err(RelocationError::OutOfBounds(reloc.virtual_address));
        }
        let sec_address: u32 = sec_address_64 as u32;
        let from_address = wrapping_add_u32(
            wrapping_add_u32(sec_address, section_data.virtual_address),
            4,
        );
        let value = wrapping_sub_u32(target_address, from_address);
        section_data.relative_update_u32(file.filename.as_str(), reloc.virtual_address, value)
    } else {
        Err(RelocationError::Unsupported(reloc.typ, clone_name(&sym.name)))
    }
}

/// One output-kind slot keeps its name, offsets, address and size; only
/// the byte contents may change.
pub open spec fn slot_frame(
    before: Option<SectionBuilder>,
    after: Option<SectionBuilder>,
) -> bool {
    match (before, after) {
        (None, None) => true,
        (Some(ob), Some(b)) => {
            &&& b.name == ob.name
            &&& b.file_offset_start == ob.file_offset_start
            &&& b.virtual_address == ob.virtual_address
            &&& b.bytes@.len() == ob.bytes@.len()
        },
        _ => false,
    }
}



/// `b` with the 32-bit little-endian word at `d` replaced by `v`.
pub open spec fn write_word(b: Seq<u8>, d: int, v: u32) -> Seq<u8> {
    b.take(d) + vstd::bytes::spec_u32_to_le_bytes(v) + b.skip(d + 4)
}

/// What one relocation does to an output section's bytes: the DIR32 or
/// REL32 fix-up written at the contributing file's start offset plus the
/// record's address, or a failure when the symbol, its address, the
/// file's offset or the site is missing, or the type is unsupported.
pub open spec fn spec_perform(
    bytes: Seq<u8>,
    offsets: Map<Seq<char>, u32>,
    va: u32,
    file: ObjectFile,
    table: Map<Seq<u8>, u32>,
    reloc: CoffRelocation,
) -> Result<Seq<u8>, ()> {
    match spec_symbol_by_index(file.coff.symbols@, reloc.symbol_table_index, 0) {
        None => Err(()),
        Some(si) => {
            let sym = file.coff.symbols@[si];
            if !table.contains_key(sym.name@) {
                Err(())
            } else if !offsets.contains_key(file.filename@) {
                Err(())
            } else {
                let s_addr = table[sym.name@];
                let d = offsets[file.filename@] + reloc.virtual_address;
                if d + 4 > bytes.len() {
                    Err(())
                } else if reloc.typ == IMAGE_REL_I386_DIR32 {
                    Ok(
                        write_word(
                            bytes,
                            d,
                            wrap_add32(spec_u32_from_le_bytes(bytes.subrange(d, d + 4)), s_addr),
                        ),
                    )
                } else if reloc.typ == IMAGE_REL_I386_REL32 {
                    Ok(
                        write_word(
                            bytes,
                            d,
                            wrap_add32(
                                spec_u32_from_le_bytes(bytes.subrange(d, d + 4)),
                                wrap_sub32(s_addr, wrap_add32(wrap_add32(d as u32, va), 4)),
                            ),
                        ),
                    )
                } else {
                    Err(())
                }
            }
        },
    }
}

/// The bytes after evaluating the relocations from index `i` on, in
/// order; a failure anywhere fails the whole list.
pub open spec fn spec_apply_relocs(
    bytes: Seq<u8>,
    offsets: Map<Seq<char>, u32>,
    va: u32,
    file: ObjectFile,
    table: Map<Seq<u8>, u32>,
    relocs: Seq<CoffRelocation>,
    i: int,
) -> Result<Seq<u8>, ()>
    decreases relocs.len() - i,
{
    if i < 0 || i >= relocs.len() {
        Ok(bytes)
    } else {
        match spec_perform(bytes, offsets, va, file, table, relocs[i]) {
            Err(()) => Err(()),
            Ok(b2) => spec_apply_relocs(b2, offsets, va, file, table, relocs, i + 1),
        }
    }
}

/// Whether any section of the table is merged into the given output
/// kind.
pub open spec fn file_touches(sections: Seq<CoffSection>, kind: OutputKind) -> bool {
    exists|i: int|
        0 <= i < sections.len() && spec_output_kind(
            crate::coff::spec_trim_nul((#[trigger] sections[i]).name@),
        ) == Some(kind)
}

/// A slot whose bytes did not change (presence and contents alike).
pub open spec fn slot_bytes_unchanged(
    before: Option<SectionBuilder>,
    after: Option<SectionBuilder>,
) -> bool {
    match (before, after) {
        (Some(a), Some(b)) => b.bytes == a.bytes,
        (None, None) => true,
        _ => false,
    }
}


/// Whether any of the files has a section merged into the given kind.
pub open spec fn any_file_touches(files: Seq<ObjectFile>, kind: OutputKind) -> bool {
    exists|i: int|
        0 <= i < files.len() && file_touches((#[trigger] files[i]).coff.sections@, kind)
}

/// Applies every relocation of one input section to its builder.
fn apply_relocations(
    builder: &mut SectionBuilder,
    relocs: &Vec<CoffRelocation>,
    file: &ObjectFile,
    symbol_table: &SymbolTable,
) -> (r: Result<(), RelocationError>)
    requires
        file.wf(),
        old(builder).wf(),
    ensures
        final(builder).wf(),
        final(builder).name == old(builder).name,
        final(builder).virtual_address == old(builder).virtual_address,
        final(builder).file_offset_start == old(builder).file_offset_start,
        final(builder).bytes@.len() == old(builder).bytes@.len(),
        r is Ok <==> spec_apply_relocs(
            old(builder).bytes@,
            old(builder).offsets(),
            old(builder).virtual_address,
            *file,
            symbol_table.view_map(),
            relocs@,
            0,
        ) is Ok,
        r is Ok ==> spec_apply_relocs(
            old(builder).bytes@,
            old(builder).offsets(),
            old(builder).virtual_address,
            *file,
            symbol_table.view_map(),
            relocs@,
            0,
        ) == Ok::<Seq<u8>, ()>(final(builder).bytes@),
{
    let ghost b0 = builder.bytes@;
    let ghost offs = builder.offsets();
    let ghost va = builder.virtual_address;
    let ghost table = symbol_table.view_map();
    let n = relocs.len();
    let mut i: usize = 0;
    while i < n
        invariant
            file.wf(),
            builder.wf(),
            i <= n,
            n == relocs@.len(),
            builder.name == old(builder).name,
            builder.virtual_address == old(builder).virtual_address,
            builder.file_offset_start == old(builder).file_offset_start,
            builder.bytes@.len() == old(builder).bytes@.len(),
            offs == builder.offsets(),
            va == builder.virtual_address,
            table == symbol_table.view_map(),
            b0 == old(builder).bytes@,
            spec_apply_relocs(b0, offs, va, *file, table, relocs@, 0) == spec_apply_relocs(
                builder.bytes@,
                offs,
                va,
                *file,
                table,
                relocs@,
                i as int,
            ),
        decreases n - i,
    {
        let ghost cur = builder.bytes@;
        let outcome = perform_relocation(&relocs[i], file, symbol_table, builder);
        proof {
            let rel = relocs@[i as int];
            let step = spec_perform(cur, offs, va, *file, table, rel);
            match outcome {
                Ok(()) => {
                    let si = spec_symbol_by_index(
                        file.coff.symbols@,
                        rel.symbol_table_index,
                        0,
                    )->Some_0;
                    let sym = file.coff.symbols@[si];
                    let s_addr = table[sym.name@];
                    let d = offs[file.filename@] + rel.virtual_address;
                    let old_word = spec_u32_from_le_bytes(cur.subrange(d, d + 4));
                    vstd::bytes::lemma_auto_spec_u32_to_from_le_bytes();
                    if rel.typ == IMAGE_REL_I386_DIR32 {
                        assert(builder.bytes@ =~= write_word(
                            cur,
                            d,
                            wrap_add32(old_word, s_addr),
                        ));
                    } else {
                        assert(builder.bytes@ =~= write_word(
                            cur,
                            d,
                            wrap_add32(
                                old_word,
                                wrap_sub32(s_addr, wrap_add32(wrap_add32(d as u32, va), 4)),
                            ),
                        ));
                    }
                    assert(step == Ok::<Seq<u8>, ()>(builder.bytes@));
                },
                Err(_) => {
                    assert(step is Err);
                },
            }
        }
        match outcome {
            Ok(()) => (),
            Err(e) => {
                return Err(e);
            },
        }
        i = i + 1;
    }
    Ok(())
}


/// The bytes of one output section after evaluating the relocations of
/// every section of `file` that merges into `kind`, from table index `i`
/// on; a failing relocation fails the whole file.
pub open spec fn spec_file_fold(
    bytes: Seq<u8>,
    offsets: Map<Seq<char>, u32>,
    va: u32,
    file: ObjectFile,
    table: Map<Seq<u8>, u32>,
    kind: OutputKind,
    i: int,
) -> Result<Seq<u8>, ()>
    decreases file.coff.sections@.len() - i,
{
    if i < 0 || i >= file.coff.sections@.len() {
        Ok(bytes)
    } else {
        let step = if spec_output_kind(
            crate::coff::spec_trim_nul(file.coff.sections@[i].name@),
        ) == Some(kind) {
            spec_apply_relocs(
                bytes,
                offsets,
                va,
                file,
                table,
                file.coff.sections@[i].relocations@,
                0,
            )
        } else {
            Ok(bytes)
        };
        match step {
            Err(()) => Err(()),
            Ok(b2) => spec_file_fold(b2, offsets, va, file, table, kind, i + 1),
        }
    }
}

/// One slot's evolution under a file's relocations: a present builder's
/// bytes become the file fold's result, an absent slot stays absent.
pub open spec fn slot_file_fold_ok(
    before: Option<SectionBuilder>,
    after: Option<SectionBuilder>,
    file: ObjectFile,
    table: Map<Seq<u8>, u32>,
    kind: OutputKind,
) -> bool {
    match (before, after) {
        (Some(a), Some(b)) => spec_file_fold(
            a.bytes@,
            a.offsets(),
            a.virtual_address,
            file,
            table,
            kind,
            0,
        ) == Ok::<Seq<u8>, ()>(b.bytes@),
        (None, None) => true,
        _ => false,
    }
}

/// Whether a present slot survives the file fold without an error;
/// absent slots trivially do.
pub open spec fn slot_file_fold_succeeds(
    before: Option<SectionBuilder>,
    file: ObjectFile,
    table: Map<Seq<u8>, u32>,
    kind: OutputKind,
) -> bool {
    match before {
        Some(a) => spec_file_fold(
            a.bytes@,
            a.offsets(),
            a.virtual_address,
            file,
            table,
            kind,
            0,
        ) is Ok,
        None => true,
    }
}



/// The bytes of one output section after evaluating every file's
/// relocations of the given kind, in input order.
pub open spec fn spec_files_fold(
    bytes: Seq<u8>,
    offsets: Map<Seq<char>, u32>,
    va: u32,
    table: Map<Seq<u8>, u32>,
    files: Seq<ObjectFile>,
    kind: OutputKind,
    i: int,
) -> Result<Seq<u8>, ()>
    decreases files.len() - i,
{
    if i < 0 || i >= files.len() {
        Ok(bytes)
    } else {
        match spec_file_fold(bytes, offsets, va, files[i], table, kind, 0) {
            Err(()) => Err(()),
            Ok(b2) => spec_files_fold(b2, offsets, va, table, files, kind, i + 1),
        }
    }
}

/// One slot's evolution under every file's relocations.
pub open spec fn slot_files_fold_ok(
    before: Option<SectionBuilder>,
    after: Option<SectionBuilder>,
    files: Seq<ObjectFile>,
    table: Map<Seq<u8>, u32>,
    kind: OutputKind,
) -> bool {
    match (before, after) {
        (Some(a), Some(b)) => spec_files_fold(
            a.bytes@,
            a.offsets(),
            a.virtual_address,
            table,
            files,
            kind,
            0,
        ) == Ok::<Seq<u8>, ()>(b.bytes@),
        (None, None) => true,
        _ => false,
    }
}

/// Whether a present slot survives every file's relocations.
pub open spec fn slot_files_fold_succeeds(
    before: Option<SectionBuilder>,
    files: Seq<ObjectFile>,
    table: Map<Seq<u8>, u32>,
    kind: OutputKind,
) -> bool {
    match before {
        Some(a) => spec_files_fold(
            a.bytes@,
            a.offsets(),
            a.virtual_address,
            table,
            files,
            kind,
            0,
        ) is Ok,
        None => true,
    }
}

/// A section of a different kind leaves the file fold unchanged at its
/// index.
proof fn lemma_fold_noop_step(
    bytes: Seq<u8>,
    offsets: Map<Seq<char>, u32>,
    va: u32,
    file: ObjectFile,
    table: Map<Seq<u8>, u32>,
    kind: OutputKind,
    i: int,
)
    requires
        0 <= i < file.coff.sections@.len(),
        spec_output_kind(crate::coff::spec_trim_nul(file.coff.sections@[i].name@)) != Some(kind),
    ensures
        spec_file_fold(bytes, offsets, va, file, table, kind, i) == spec_file_fold(
            bytes,
            offsets,
            va,
            file,
            table,
            kind,
            i + 1,
        ),
{
}

impl SectionMap {
    /// Evaluates every relocation of every merged section of one file
    /// against the symbol table, fixing up the accumulated bytes in
    /// place: each present builder's bytes become the file fold of its
    /// kind, and the call succeeds exactly when every evaluated
    /// relocation does. Sections of kinds that are not merged are passed
    /// over.
    #[verifier::rlimit(100)]
    #[verifier::spinoff_prover]
    pub fn process_file(
        &mut self,
        symbol_table: &SymbolTable,
        file: &ObjectFile,
    ) -> (r: Result<(), crate::error::Error>)
        requires
            old(self).wf(),
            file.wf(),
        ensures
            final(self).wf(),
            slot_frame(old(self).mtext, final(self).mtext),
            slot_frame(old(self).mdata, final(self).mdata),
            slot_frame(old(self).mbss, final(self).mbss),
            slot_frame(old(self).mrdata, final(self).mrdata),
            !file_touches(file.coff.sections@, OutputKind::Text) ==> slot_bytes_unchanged(
                old(self).mtext,
                final(self).mtext,
            ),
            !file_touches(file.coff.sections@, OutputKind::Data) ==> slot_bytes_unchanged(
                old(self).mdata,
                final(self).mdata,
            ),
            !file_touches(file.coff.sections@, OutputKind::Bss) ==> slot_bytes_unchanged(
                old(self).mbss,
                final(self).mbss,
            ),
            !file_touches(file.coff.sections@, OutputKind::Rdata) ==> slot_bytes_unchanged(
                old(self).mrdata,
                final(self).mrdata,
            ),
            r is Err ==> r->Err_0 is Relocation,
            r is Ok <==> slot_file_fold_succeeds(
                old(self).mtext,
                *file,
                symbol_table.view_map(),
                OutputKind::Text,
            ) && slot_file_fold_succeeds(
                old(self).mdata,
                *file,
                symbol_table.view_map(),
                OutputKind::Data,
            ) && slot_file_fold_succeeds(
                old(self).mbss,
                *file,
                symbol_table.view_map(),
                OutputKind::Bss,
            ) && slot_file_fold_succeeds(
                old(self).mrdata,
                *file,
                symbol_table.view_map(),
                OutputKind::Rdata,
            ),
            r is Ok ==> slot_file_fold_ok(
                old(self).mtext,
                final(self).mtext,
                *file,
                symbol_table.view_map(),
                OutputKind::Text,
            ) && slot_file_fold_ok(
                old(self).mdata,
                final(self).mdata,
                *file,
                symbol_table.view_map(),
                OutputKind::Data,
            ) && slot_file_fold_ok(
                old(self).mbss,
                final(self).mbss,
                *file,
                symbol_table.view_map(),
                OutputKind::Bss,
            ) && slot_file_fold_ok(
                old(self).mrdata,
                final(self).mrdata,
                *file,
                symbol_table.view_map(),
                OutputKind::Rdata,
            ),
    {
        let ghost table = symbol_table.view_map();
        let ns = file.coff.sections.len();
        let mut si: usize = 0;
        while si < ns
            invariant
                self.wf(),
                file.wf(),
                si <= ns,
                ns == file.coff.sections@.len(),
                table == symbol_table.view_map(),
                slot_frame(old(self).mtext, self.mtext),
                slot_frame(old(self).mdata, self.mdata),
                slot_frame(old(self).mbss, self.mbss),
                slot_frame(old(self).mrdata, self.mrdata),
                !file_touches(file.coff.sections@, OutputKind::Text) ==> slot_bytes_unchanged(
                    old(self).mtext,
                    self.mtext,
                ),
                !file_touches(file.coff.sections@, OutputKind::Data) ==> slot_bytes_unchanged(
                    old(self).mdata,
                    self.mdata,
                ),
                !file_touches(file.coff.sections@, OutputKind::Bss) ==> slot_bytes_unchanged(
                    old(self).mbss,
                    self.mbss,
                ),
                !file_touches(file.coff.sections@, OutputKind::Rdata) ==> slot_bytes_unchanged(
                    old(self).mrdata,
                    self.mrdata,
                ),
                match (old(self).mtext, self.mtext) {
                    (Some(a), Some(b)) => spec_file_fold(
                        a.bytes@,
                        a.offsets(),
                        a.virtual_address,
                        *file,
                        table,
                        OutputKind::Text,
                        0,
                    ) == spec_file_fold(
                        b.bytes@,
                        a.offsets(),
                        a.virtual_address,
                        *file,
                        table,
                        OutputKind::Text,
                        si as int,
                    ),
                    _ => true,
                },
                match (old(self).mdata, self.mdata) {
                    (Some(a), Some(b)) => spec_file_fold(
                        a.bytes@,
                        a.offsets(),
                        a.virtual_address,
                        *file,
                        table,
                        OutputKind::Data,
                        0,
                    ) == spec_file_fold(
                        b.bytes@,
                        a.offsets(),
                        a.virtual_address,
                        *file,
                        table,
                        OutputKind::Data,
                        si as int,
                    ),
                    _ => true,
                },
                match (old(self).mbss, self.mbss) {
                    (Some(a), Some(b)) => spec_file_fold(
                        a.bytes@,
                        a.offsets(),
                        a.virtual_address,
                        *file,
                        table,
                        OutputKind::Bss,
                        0,
                    ) == spec_file_fold(
                        b.bytes@,
                        a.offsets(),
                        a.virtual_address,
                        *file,
                        table,
                        OutputKind::Bss,
                        si as int,
                    ),
                    _ => true,
                },
                match (old(self).mrdata, self.mrdata) {
                    (Some(a), Some(b)) => spec_file_fold(
                        a.bytes@,
                        a.offsets(),
                        a.virtual_address,
                        *file,
                        table,
                        OutputKind::Rdata,
                        0,
                    ) == spec_file_fold(
                        b.bytes@,
                        a.offsets(),
                        a.virtual_address,
                        *file,
                        table,
                        OutputKind::Rdata,
                        si as int,
                    ),
                    _ => true,
                },
            decreases ns - si,
        {
            let trimmed = crate::coff::trim_nul(file.coff.sections[si].name.as_slice());
            let kind_opt = output_kind(trimmed.as_slice());
            let ghost pre = *self;
            let kind = match kind_opt {
                Some(k) => k,
                None => {
                    si = si + 1;
                    proof {
                        let cur_map = *self;
                        match (old(self).mtext, cur_map.mtext) {
                            (Some(a), Some(b)) => lemma_fold_noop_step(
                                b.bytes@,
                                a.offsets(),
                                a.virtual_address,
                                *file,
                                table,
                                OutputKind::Text,
                                si - 1,
                            ),
                            _ => (),
                        }
                        match (old(self).mdata, cur_map.mdata) {
                            (Some(a), Some(b)) => lemma_fold_noop_step(
                                b.bytes@,
                                a.offsets(),
                                a.virtual_address,
                                *file,
                                table,
                                OutputKind::Data,
                                si - 1,
                            ),
                            _ => (),
                        }
                        match (old(self).mbss, cur_map.mbss) {
                            (Some(a), Some(b)) => lemma_fold_noop_step(
                                b.bytes@,
                                a.offsets(),
                                a.virtual_address,
                                *file,
                                table,
                                OutputKind::Bss,
                                si - 1,
                            ),
                            _ => (),
                        }
                        match (old(self).mrdata, cur_map.mrdata) {
                            (Some(a), Some(b)) => lemma_fold_noop_step(
                                b.bytes@,
                                a.offsets(),
                                a.virtual_address,
                                *file,
                                table,
                                OutputKind::Rdata,
                                si - 1,
                            ),
                            _ => (),
                        }
                    }
                    continue ;
                },
            };
            proof {
                assert(spec_output_kind(
                    crate::coff::spec_trim_nul(file.coff.sections@[si as int].name@),
                ) == Some(kind));
                assert(file_touches(file.coff.sections@, kind));
            }
            let outcome: Result<(), RelocationError> = match kind {
                OutputKind::Text => match &mut self.mtext {
                    Some(b) => apply_relocations(
                        b,
                        &file.coff.sections[si].relocations,
                        file,
                        symbol_table,
                    ),
                    None => Ok(()),
                },
                OutputKind::Data => match &mut self.mdata {
                    Some(b) => apply_relocations(
                        b,
                        &file.coff.sections[si].relocations,
                        file,
                        symbol_table,
                    ),
                    None => Ok(()),
                },
                OutputKind::Bss => match &mut self.mbss {
                    Some(b) => apply_relocations(
                        b,
                        &file.coff.sections[si].relocations,
                        file,
                        symbol_table,
                    ),
                    None => Ok(()),
                },
                OutputKind::Rdata => match &mut self.mrdata {
                    Some(b) => apply_relocations(
                        b,
                        &file.coff.sections[si].relocations,
                        file,
                        symbol_table,
                    ),
                    None => Ok(()),
                },
            };
            match outcome {
                Ok(()) => (),
                Err(e) => {
                    proof {
                        match kind {
                            OutputKind::Text => {
                                match (old(self).mtext, pre.mtext) {
                                    (Some(a), Some(pb)) => {
                                        assert(spec_file_fold(
                                            a.bytes@,
                                            a.offsets(),
                                            a.virtual_address,
                                            *file,
                                            table,
                                            OutputKind::Text,
                                            0,
                                        ) is Err);
                                    },
                                    _ => (),
                                }
                            },
                            OutputKind::Data => {
                                match (old(self).mdata, pre.mdata) {
                                    (Some(a), Some(pb)) => {
                                        assert(spec_file_fold(
                                            a.bytes@,
                                            a.offsets(),
                                            a.virtual_address,
                                            *file,
                                            table,
                                            OutputKind::Data,
                                            0,
                                        ) is Err);
                                    },
                                    _ => (),
                                }
                            },
                            OutputKind::Bss => {
                                match (old(self).mbss, pre.mbss) {
                                    (Some(a), Some(pb)) => {
                                        assert(spec_file_fold(
                                            a.bytes@,
                                            a.offsets(),
                                            a.virtual_address,
                                            *file,
                                            table,
                                            OutputKind::Bss,
                                            0,
                                        ) is Err);
                                    },
                                    _ => (),
                                }
                            },
                            OutputKind::Rdata => {
                                match (old(self).mrdata, pre.mrdata) {
                                    (Some(a), Some(pb)) => {
                                        assert(spec_file_fold(
                                            a.bytes@,
                                            a.offsets(),
                                            a.virtual_address,
                                            *file,
                                            table,
                                            OutputKind::Rdata,
                                            0,
                                        ) is Err);
                                    },
                                    _ => (),
                                }
                            },
                        }
                    }
                    return Err(crate::error::Error::Relocation(clone_string(&file.filename), e));
                },
            }
            si = si + 1;
            proof {
                let cur_map = *self;
                if kind != OutputKind::Text {
                    match (old(self).mtext, cur_map.mtext) {
                        (Some(a), Some(b)) => lemma_fold_noop_step(
                            b.bytes@,
                            a.offsets(),
                            a.virtual_address,
                            *file,
                            table,
                            OutputKind::Text,
                            si - 1,
                        ),
                        _ => (),
                    }
                }
                if kind != OutputKind::Data {
                    match (old(self).mdata, cur_map.mdata) {
                        (Some(a), Some(b)) => lemma_fold_noop_step(
                            b.bytes@,
                            a.offsets(),
                            a.virtual_address,
                            *file,
                            table,
                            OutputKind::Data,
                            si - 1,
                        ),
                        _ => (),
                    }
                }
                if kind != OutputKind::Bss {
                    match (old(self).mbss, cur_map.mbss) {
                        (Some(a), Some(b)) => lemma_fold_noop_step(
                            b.bytes@,
                            a.offsets(),
                            a.virtual_address,
                            *file,
                            table,
                            OutputKind::Bss,
                            si - 1,
                        ),
                        _ => (),
                    }
                }
                if kind != OutputKind::Rdata {
                    match (old(self).mrdata, cur_map.mrdata) {
                        (Some(a), Some(b)) => lemma_fold_noop_step(
                            b.bytes@,
                            a.offsets(),
                            a.virtual_address,
                            *file,
                            table,
                            OutputKind::Rdata,
                            si - 1,
                        ),
                        _ => (),
                    }
                }
            }
        }
        Ok(())
    }

    /// Evaluates every relocation of every merged section of the given
    /// files against the symbol table, in input order, fixing up the
    /// accumulated bytes in place: each present builder's bytes become
    /// the files fold of its kind, and the call succeeds exactly when
    /// every evaluated relocation does. Sections of kinds that are not
    /// merged are passed over.
    #[verifier::rlimit(100)]
    #[verifier::spinoff_prover]
    pub fn process_relocations(
        &mut self,
        symbol_table: &SymbolTable,
        files: &[ObjectFile],
    ) -> (r: Result<(), crate::error::Error>)
        requires
            old(self).wf(),
            forall|i: int| 0 <= i < files@.len() ==> (#[trigger] files@[i]).wf(),
        ensures
            final(self).wf(),
            slot_frame(old(self).mtext, final(self).mtext),
            slot_frame(old(self).mdata, final(self).mdata),
            slot_frame(old(self).mbss, final(self).mbss),
            slot_frame(old(self).mrdata, final(self).mrdata),
            !any_file_touches(files@, OutputKind::Text) ==> slot_bytes_unchanged(
                old(self).mtext,
                final(self).mtext,
            ),
            !any_file_touches(files@, OutputKind::Data) ==> slot_bytes_unchanged(
                old(self).mdata,
                final(self).mdata,
            ),
            !any_file_touches(files@, OutputKind::Bss) ==> slot_bytes_unchanged(
                old(self).mbss,
                final(self).mbss,
            ),
            !any_file_touches(files@, OutputKind::Rdata) ==> slot_bytes_unchanged(
                old(self).mrdata,
                final(self).mrdata,
            ),
            r is Err ==> r->Err_0 is Relocation,
            r is Ok <==> slot_files_fold_succeeds(
                old(self).mtext,
                files@,
                symbol_table.view_map(),
                OutputKind::Text,
            ) && slot_files_fold_succeeds(
                old(self).mdata,
                files@,
                symbol_table.view_map(),
                OutputKind::Data,
            ) && slot_files_fold_succeeds(
                old(self).mbss,
                files@,
                symbol_table.view_map(),
                OutputKind::Bss,
            ) && slot_files_fold_succeeds(
                old(self).mrdata,
                files@,
                symbol_table.view_map(),
                OutputKind::Rdata,
            ),
            r is Ok ==> slot_files_fold_ok(
                old(self).mtext,
                final(self).mtext,
                files@,
                symbol_table.view_map(),
                OutputKind::Text,
            ) && slot_files_fold_ok(
                old(self).mdata,
                final(self).mdata,
                files@,
                symbol_table.view_map(),
                OutputKind::Data,
            ) && slot_files_fold_ok(
                old(self).mbss,
                final(self).mbss,
                files@,
                symbol_table.view_map(),
                OutputKind::Bss,
            ) && slot_files_fold_ok(
                old(self).mrdata,
                final(self).mrdata,
                files@,
                symbol_table.view_map(),
                OutputKind::Rdata,
            ),
    {
        let ghost table = symbol_table.view_map();
        let nf = files.len();
        let mut fi: usize = 0;
        while fi < nf
            invariant
                self.wf(),
                fi <= nf,
                nf == files@.len(),
                table == symbol_table.view_map(),
                forall|i: int| 0 <= i < files@.len() ==> (#[trigger] files@[i]).wf(),
                slot_frame(old(self).mtext, self.mtext),
                slot_frame(old(self).mdata, self.mdata),
                slot_frame(old(self).mbss, self.mbss),
                slot_frame(old(self).mrdata, self.mrdata),
                !any_file_touches(files@, OutputKind::Text) ==> slot_bytes_unchanged(
                    old(self).mtext,
                    self.mtext,
                ),
                !any_file_touches(files@, OutputKind::Data) ==> slot_bytes_unchanged(
                    old(self).mdata,
                    self.mdata,
                ),
                !any_file_touches(files@, OutputKind::Bss) ==> slot_bytes_unchanged(
                    old(self).mbss,
                    self.mbss,
                ),
                !any_file_touches(files@, OutputKind::Rdata) ==> slot_bytes_unchanged(
                    old(self).mrdata,
                    self.mrdata,
                ),
                match (old(self).mtext, self.mtext) {
                    (Some(a), Some(b)) => spec_files_fold(
                        a.bytes@,
                        a.offsets(),
                        a.virtual_address,
                        table,
                        files@,
                        OutputKind::Text,
                        0,
                    ) == spec_files_fold(
                        b.bytes@,
                        a.offsets(),
                        a.virtual_address,
                        table,
                        files@,
                        OutputKind::Text,
                        fi as int,
                    ),
                    _ => true,
                },
                match (old(self).mdata, self.mdata) {
                    (Some(a), Some(b)) => spec_files_fold(
                        a.bytes@,
                        a.offsets(),
                        a.virtual_address,
                        table,
                        files@,
                        OutputKind::Data,
                        0,
                    ) == spec_files_fold(
                        b.bytes@,
                        a.offsets(),
                        a.virtual_address,
                        table,
                        files@,
                        OutputKind::Data,
                        fi as int,
                    ),
                    _ => true,
                },
                match (old(self).mbss, self.mbss) {
                    (Some(a), Some(b)) => spec_files_fold(
                        a.bytes@,
                        a.offsets(),
                        a.virtual_address,
                        table,
                        files@,
                        OutputKind::Bss,
                        0,
                    ) == spec_files_fold(
                        b.bytes@,
                        a.offsets(),
                        a.virtual_address,
                        table,
                        files@,
                        OutputKind::Bss,
                        fi as int,
                    ),
                    _ => true,
                },
                match (old(self).mrdata, self.mrdata) {
                    (Some(a), Some(b)) => spec_files_fold(
                        a.bytes@,
                        a.offsets(),
                        a.virtual_address,
                        table,
                        files@,
                        OutputKind::Rdata,
                        0,
                    ) == spec_files_fold(
                        b.bytes@,
                        a.offsets(),
                        a.virtual_address,
                        table,
                        files@,
                        OutputKind::Rdata,
                        fi as int,
                    ),
                    _ => true,
                },
            decreases nf - fi,
        {
            proof {
                if !any_file_touches(files@, OutputKind::Text) {
                    assert(!file_touches(files@[fi as int].coff.sections@, OutputKind::Text));
                }
                if !any_file_touches(files@, OutputKind::Data) {
                    assert(!file_touches(files@[fi as int].coff.sections@, OutputKind::Data));
                }
                if !any_file_touches(files@, OutputKind::Bss) {
                    assert(!file_touches(files@[fi as int].coff.sections@, OutputKind::Bss));
                }
                if !any_file_touches(files@, OutputKind::Rdata) {
                    assert(!file_touches(files@[fi as int].coff.sections@, OutputKind::Rdata));
                }
            }
            let ghost pre = *self;
            match self.process_file(symbol_table, &files[fi]) {
                Ok(()) => (),
                Err(e) => {
                    proof {
                        let f = files@[fi as int];
                        if !slot_file_fold_succeeds(pre.mtext, f, table, OutputKind::Text) {
                            match (old(self).mtext, pre.mtext) {
                                (Some(a), Some(pb)) => {
                                    assert(spec_files_fold(
                                        a.bytes@,
                                        a.offsets(),
                                        a.virtual_address,
                                        table,
                                        files@,
                                        OutputKind::Text,
                                        0,
                                    ) is Err);
                                },
                                _ => (),
                            }
                        } else if !slot_file_fold_succeeds(pre.mdata, f, table, OutputKind::Data) {
                            match (old(self).mdata, pre.mdata) {
                                (Some(a), Some(pb)) => {
                                    assert(spec_files_fold(
                                        a.bytes@,
                                        a.offsets(),
                                        a.virtual_address,
                                        table,
                                        files@,
                                        OutputKind::Data,
                                        0,
                                    ) is Err);
                                },
                                _ => (),
                            }
                        } else if !slot_file_fold_succeeds(pre.mbss, f, table, OutputKind::Bss) {
                            match (old(self).mbss, pre.mbss) {
                                (Some(a), Some(pb)) => {
                                    assert(spec_files_fold(
                                        a.bytes@,
                                        a.offsets(),
                                        a.virtual_address,
                                        table,
                                        files@,
                                        OutputKind::Bss,
                                        0,
                                    ) is Err);
                                },
                                _ => (),
                            }
                        } else {
                            match (old(self).mrdata, pre.mrdata) {
                                (Some(a), Some(pb)) => {
                                    assert(spec_files_fold(
                                        a.bytes@,
                                        a.offsets(),
                                        a.virtual_address,
                                        table,
                                        files@,
                                        OutputKind::Rdata,
                                        0,
                                    ) is Err);
                                },
                                _ => (),
                            }
                        }
                    }
                    return Err(e);
                },
            }
            fi = fi + 1;
        }
        Ok(())
    }
}

/// The table after resolving the symbols of every patch object, in
/// configuration order; a rejection names the offending file.
pub open spec fn spec_extract_patches(
    t: Map<Seq<u8>, u32>,
    map: SectionMap,
    patches: Seq<crate::patch::Patch>,
    i: int,
) -> Result<Map<Seq<u8>, u32>, (Seq<char>, u8)>
    decreases patches.len() - i,
{
    if i < 0 || i >= patches.len() {
        Ok(t)
    } else {
        match spec_extract(t, map, patches, patches[i].patchfile, 0) {
            Err(c) => Err((patches[i].patchfile.filename@, c)),
            Ok(t2) => spec_extract_patches(t2, map, patches, i + 1),
        }
    }
}

/// The table after additionally resolving the symbols of every mod
/// object, in input order; a rejection names the offending file.
pub open spec fn spec_extract_mods(
    t: Map<Seq<u8>, u32>,
    map: SectionMap,
    patches: Seq<crate::patch::Patch>,
    mods: Seq<ObjectFile>,
    i: int,
) -> Result<Map<Seq<u8>, u32>, (Seq<char>, u8)>
    decreases mods.len() - i,
{
    if i < 0 || i >= mods.len() {
        Ok(t)
    } else {
        match spec_extract(t, map, patches, mods[i], 0) {
            Err(c) => Err((mods[i].filename@, c)),
            Ok(t2) => spec_extract_mods(t2, map, patches, mods, i + 1),
        }
    }
}

/// The symbol table a configuration yields: patch objects resolved first,
/// then mod objects, so same-named mod definitions take precedence. A
/// rejection carries the offending file's name and the storage class.
pub open spec fn spec_build_table(
    map: SectionMap,
    patches: Seq<crate::patch::Patch>,
    mods: Seq<ObjectFile>,
) -> Result<Map<Seq<u8>, u32>, (Seq<char>, u8)> {
    match spec_extract_patches(Map::empty(), map, patches, 0) {
        Err(fc) => Err(fc),
        Ok(t1) => spec_extract_mods(t1, map, patches, mods, 0),
    }
}

impl SymbolTable {
    /// Builds the global symbol table from every input object: the
    /// patches first, then the mods.
    pub fn new(
        section_map: &SectionMap,
        config: &crate::config::Configuration,
    ) -> (r: Result<SymbolTable, crate::error::Error>)
        requires
            section_map.wf(),
            config.wf(),
        ensures
            match r {
                Ok(tbl) => spec_build_table(*section_map, config.patches@, config.modfiles@)
                    == Ok::<_, (Seq<char>, u8)>(tbl.view_map()),
                Err(crate::error::Error::UnsupportedStorageClass(f, c)) => spec_build_table(
                    *section_map,
                    config.patches@,
                    config.modfiles@,
                ) == Err::<Map<Seq<u8>, u32>, _>((f@, c)),
                Err(_) => false,
            },
    {
        let mut table = SymbolTable::empty();
        let np = config.patches.len();
        let mut i: usize = 0;
        while i < np
            invariant
                section_map.wf(),
                config.wf(),
                i <= np,
                np == config.patches@.len(),
                spec_extract_patches(Map::empty(), *section_map, config.patches@, 0)
                    == spec_extract_patches(
                    table.view_map(),
                    *section_map,
                    config.patches@,
                    i as int,
                ),
            decreases np - i,
        {
            match table.extract_symbols(
                section_map,
                &config.patches[i].patchfile,
                config.patches.as_slice(),
            ) {
                Ok(()) => (),
                Err(e) => {
                    return Err(e);
                },
            }
            i = i + 1;
        }
        let nm = config.modfiles.len();
        let mut k: usize = 0;
        while k < nm
            invariant
                section_map.wf(),
                config.wf(),
                k <= nm,
                nm == config.modfiles@.len(),
                spec_extract_patches(Map::empty(), *section_map, config.patches@, 0) matches Ok(
                    t1,
                ) && spec_extract_mods(t1, *section_map, config.patches@, config.modfiles@, 0)
                    == spec_extract_mods(
                    table.view_map(),
                    *section_map,
                    config.patches@,
                    config.modfiles@,
                    k as int,
                ),
            decreases nm - k,
        {
            match table.extract_symbols(
                section_map,
                &config.modfiles[k],
                config.patches.as_slice(),
            ) {
                Ok(()) => (),
                Err(e) => {
                    return Err(e);
                },
            }
            k = k + 1;
        }
        Ok(table)
    }
}

/// When a patch object and a mod object both define a symbol, the mod's
/// definition wins: patches are resolved first, and a later insertion
/// overwrites an earlier one.
pub proof fn law_symbol_precedence(
    t: Map<Seq<u8>, u32>,
    name: Seq<u8>,
    patch_address: u32,
    mod_address: u32,
)
    ensures
        t.insert(name, patch_address).insert(name, mod_address)[name] == mod_address,
        t.insert(name, patch_address).insert(name, mod_address).contains_key(name),
{
}

/// The value a `IMAGE_REL_I386_REL32` fix-up leaves at its site equals
/// `(S - (B + O + 4) + prior) mod 2^32`, where `S` is the symbol's
/// address, `B` the output section's base virtual address, `O` the site's
/// offset within the output section, and `prior` the addend read from the
/// site.
pub proof fn law_rel32_semantics(prior: u32, s: u32, o: u32, b: u32)
    ensures
        wrap_add32(prior, wrap_sub32(s, wrap_add32(wrap_add32(o, b), 4))) == ((s - (b + o + 4)
            + prior) % 0x1_0000_0000) as u32,
{
    let m: int = 0x1_0000_0000;
    let inner = wrap_add32(wrap_add32(o, b), 4) as int;
    assert(inner == (o + b + 4) % m) by {
        vstd::arithmetic::div_mod::lemma_add_mod_noop(o + b, 4, m);
        vstd::arithmetic::div_mod::lemma_mod_twice(o + b, m);
        vstd::arithmetic::div_mod::lemma_small_mod(4nat, m as nat);
    }
    let sub = wrap_sub32(s, inner as u32) as int;
    assert(sub == (s - (o + b + 4) + m) % m) by {
        vstd::arithmetic::div_mod::lemma_sub_mod_noop(s + m, o + b + 4, m);
        vstd::arithmetic::div_mod::lemma_mod_twice(s + m - (o + b + 4), m);
        vstd::arithmetic::div_mod::lemma_add_mod_noop(s as int, m, m);
        vstd::arithmetic::div_mod::lemma_mod_self_0(m);
        vstd::arithmetic::div_mod::lemma_mod_twice(s as int, m);
        vstd::arithmetic::div_mod::lemma_small_mod(s as nat, m as nat);
    }
    assert(wrap_add32(prior, sub as u32) as int == (s - (b + o + 4) + prior) % m) by {
        vstd::arithmetic::div_mod::lemma_add_mod_noop(s - (o + b + 4) + m, prior as int, m);
        vstd::arithmetic::div_mod::lemma_mod_twice(s - (o + b + 4) + m, m);
        vstd::arithmetic::div_mod::lemma_small_mod(prior as nat, m as nat);
        vstd::arithmetic::div_mod::lemma_add_mod_noop(s - (o + b + 4) + prior, m, m);
        vstd::arithmetic::div_mod::lemma_mod_self_0(m);
        vstd::arithmetic::div_mod::lemma_mod_twice(s - (o + b + 4) + prior, m);
    }
}

/// The value a `IMAGE_REL_I386_DIR32` fix-up leaves at its site equals
/// `(S + prior) mod 2^32`.
pub proof fn law_dir32_semantics(prior: u32, s: u32)
    ensures
        wrap_add32(prior, s) == ((s + prior) % 0x1_0000_0000) as u32,
{
}


/// One object's contribution to a kind is no longer than all its section
/// data together.
proof fn lemma_combined_len_bound(sections: Seq<CoffSection>, pat: Seq<u8>)
    ensures
        combined(sections, pat).len() <= all_data_len(sections),
    decreases sections.len(),
{
    if sections.len() > 0 {
        lemma_combined_len_bound(sections.drop_last(), pat);
    }
}

/// Total raw data bytes across an object's sections.
pub open spec fn all_data_len(sections: Seq<CoffSection>) -> int
    decreases sections.len(),
{
    if sections.len() == 0 {
        0
    } else {
        all_data_len(sections.drop_last()) + sections.last().data@.len()
    }
}

/// Checks that an object is small enough for its sections to be merged
/// into 32-bit output sections.
pub fn sections_combine_small(file: &ObjectFile) -> (r: bool)
    ensures
        r == (all_data_len(file.coff.sections@) <= u32::MAX),
        r ==> combined(file.coff.sections@, raw_name_text()).len() <= u32::MAX
            && combined(file.coff.sections@, raw_name_data()).len() <= u32::MAX
            && combined(file.coff.sections@, raw_name_bss()).len() <= u32::MAX
            && combined(file.coff.sections@, raw_name_rdata()).len() <= u32::MAX,
{
    let n = file.coff.sections.len();
    let mut total: u64 = 0;
    let mut i: usize = 0;
    while i < n
        invariant
            i <= n,
            n == file.coff.sections@.len(),
            total == all_data_len(file.coff.sections@.take(i as int)),
            total <= u32::MAX,
        decreases n - i,
    {
        proof {
            assert(file.coff.sections@.take(i + 1).drop_last() =~= file.coff.sections@.take(
                i as int,
            ));
            assert(file.coff.sections@.take(i + 1).last() == file.coff.sections@[i as int]);
        }
        let dlen = file.coff.sections[i].data.len();
        if dlen as u64 > u32::MAX as u64 || total > u64::MAX - dlen as u64 {
            proof {
                lemma_all_data_len_mono(file.coff.sections@, i + 1);
            }
            return false;
        }
        total = total + dlen as u64;
        if total > u32::MAX as u64 {
            proof {
                lemma_all_data_len_mono(file.coff.sections@, i + 1);
            }
            return false;
        }
        i = i + 1;
    }
    proof {
        assert(file.coff.sections@.take(n as int) =~= file.coff.sections@);
        lemma_combined_len_bound(file.coff.sections@, raw_name_text());
        lemma_combined_len_bound(file.coff.sections@, raw_name_data());
        lemma_combined_len_bound(file.coff.sections@, raw_name_bss());
        lemma_combined_len_bound(file.coff.sections@, raw_name_rdata());
    }
    true
}


/// Total raw data bytes across a list of objects.
pub open spec fn all_files_data_len(files: Seq<ObjectFile>) -> int
    decreases files.len(),
{
    if files.len() == 0 {
        0
    } else {
        all_files_data_len(files.drop_last()) + all_data_len(files.last().coff.sections@)
    }
}

/// The bytes a list of objects contributes to one output section is no
/// more than all their data together.
proof fn lemma_combined_all_data_bound(files: Seq<ObjectFile>, pat: Seq<u8>)
    ensures
        combined_all(files, pat).len() <= all_files_data_len(files),
        all_files_data_len(files) >= 0,
    decreases files.len(),
{
    if files.len() > 0 {
        lemma_combined_all_data_bound(files.drop_last(), pat);
        lemma_combined_len_bound(files.last().coff.sections@, pat);
        lemma_all_data_len_nonneg(files.last().coff.sections@);
    }
}

/// Section data lengths are never negative.
proof fn lemma_all_data_len_nonneg(sections: Seq<CoffSection>)
    ensures
        all_data_len(sections) >= 0,
    decreases sections.len(),
{
    if sections.len() > 0 {
        lemma_all_data_len_nonneg(sections.drop_last());
    }
}


/// Section data totals only grow along the table.
proof fn lemma_all_data_len_mono(sections: Seq<CoffSection>, i: int)
    requires
        0 <= i <= sections.len(),
    ensures
        all_data_len(sections.take(i)) <= all_data_len(sections),
    decreases sections.len() - i,
{
    if i == sections.len() {
        assert(sections.take(i) =~= sections);
    } else {
        lemma_all_data_len_mono(sections, i + 1);
        assert(sections.take(i + 1).drop_last() =~= sections.take(i));
    }
}

/// File data totals only grow along the list.
proof fn lemma_all_files_data_len_mono(files: Seq<ObjectFile>, i: int)
    requires
        0 <= i <= files.len(),
    ensures
        all_files_data_len(files.take(i)) <= all_files_data_len(files),
    decreases files.len() - i,
{
    if i == files.len() {
        assert(files.take(i) =~= files);
    } else {
        lemma_all_files_data_len_mono(files, i + 1);
        assert(files.take(i + 1).drop_last() =~= files.take(i));
        lemma_all_data_len_nonneg(files[i].coff.sections@);
    }
}

/// Checks that a list of objects is small enough for their sections to
/// be merged into 32-bit output sections.
pub fn files_combine_small(files: &[ObjectFile]) -> (r: bool)
    ensures
        r == (all_files_data_len(files@) <= u32::MAX),
        r ==> combined_all(files@, raw_name_text()).len() <= u32::MAX && combined_all(
            files@,
            raw_name_data(),
        ).len() <= u32::MAX && combined_all(files@, raw_name_bss()).len() <= u32::MAX
            && combined_all(files@, raw_name_rdata()).len() <= u32::MAX,
{
    let nf = files.len();
    let mut total: u64 = 0;
    let mut fi: usize = 0;
    while fi < nf
        invariant
            fi <= nf,
            nf == files@.len(),
            total == all_files_data_len(files@.take(fi as int)),
            total <= u32::MAX,
        decreases nf - fi,
    {
        proof {
            assert(files@.take(fi + 1).drop_last() =~= files@.take(fi as int));
            assert(files@.take(fi + 1).last() == files@[fi as int]);
        }
        let file = &files[fi];
        let ns = file.coff.sections.len();
        let mut ft: u64 = 0;
        let mut si: usize = 0;
        while si < ns
            invariant
                fi < nf,
                nf == files@.len(),
                file == files@[fi as int],
                total == all_files_data_len(files@.take(fi as int)),
                total <= u32::MAX,
                si <= ns,
                ns == file.coff.sections@.len(),
                ft == all_data_len(file.coff.sections@.take(si as int)),
                ft <= u32::MAX,
            decreases ns - si,
        {
            proof {
                assert(file.coff.sections@.take(si + 1).drop_last() =~= file.coff.sections@.take(
                    si as int,
                ));
                assert(file.coff.sections@.take(si + 1).last() == file.coff.sections@[si as int]);
            }
            let dlen = file.coff.sections[si].data.len();
            if dlen > 0xFFFF_FFFF || ft + dlen as u64 > u32::MAX as u64 {
                proof {
                    lemma_all_data_len_mono(file.coff.sections@, si + 1);
                    lemma_all_files_data_len_mono(files@, fi + 1);
                    assert(files@.take(fi + 1).drop_last() =~= files@.take(fi as int));
                    assert(files@.take(fi + 1).last() == files@[fi as int]);
                }
                return false;
            }
            ft = ft + dlen as u64;
            si = si + 1;
        }
        proof {
            assert(file.coff.sections@.take(ns as int) =~= file.coff.sections@);
        }
        if total + ft > u32::MAX as u64 {
            proof {
                lemma_all_files_data_len_mono(files@, fi + 1);
            }
            return false;
        }
        total = total + ft;
        fi = fi + 1;
    }
    proof {
        assert(files@.take(nf as int) =~= files@);
        lemma_combined_all_data_bound(files@, raw_name_text());
        lemma_combined_all_data_bound(files@, raw_name_data());
        lemma_combined_all_data_bound(files@, raw_name_bss());
        lemma_combined_all_data_bound(files@, raw_name_rdata());
    }
    true
}

impl SectionMap {
    /// Total bytes held across the four builders, as a machine integer.
    pub fn total_len_exec(&self) -> (r: u64)
        requires
            self.wf(),
        ensures
            r == self.total_len(),
    {
        let bss_len: u64 = match &self.mbss {
            Some(b) => b.bytes.len() as u64,
            None => 0,
        };
        let data_len: u64 = match &self.mdata {
            Some(b) => b.bytes.len() as u64,
            None => 0,
        };
        let rdata_len: u64 = match &self.mrdata {
            Some(b) => b.bytes.len() as u64,
            None => 0,
        };
        let text_len: u64 = match &self.mtext {
            Some(b) => b.bytes.len() as u64,
            None => 0,
        };
        bss_len + data_len + rdata_len + text_len
    }
}


/// Sum of the lengths of the first `i` byte blocks.
pub open spec fn prefix_len_sum(blocks: Seq<Seq<u8>>, i: int) -> int
    decreases i,
{
    if i <= 0 {
        0
    } else {
        prefix_len_sum(blocks, i - 1) + blocks[i - 1].len()
    }
}

/// The offsets map after adding the named blocks to a builder in order:
/// each add records the bytes accumulated so far, exactly as
/// `SectionBuilder::add_bytes` does.
pub open spec fn offsets_after_adds(names: Seq<Seq<char>>, blocks: Seq<Seq<u8>>, i: int) -> Map<
    Seq<char>,
    u32,
>
    decreases i,
{
    if i <= 0 {
        Map::empty()
    } else {
        offsets_after_adds(names, blocks, i - 1).insert(
            names[i - 1],
            prefix_len_sum(blocks, i - 1) as u32,
        )
    }
}

/// Adding byte blocks of lengths `L1, ..., Lk` under distinct names
/// records, for the `i`-th name, the start offset `L1 + ... + L(i-1)`,
/// and accumulates `L1 + ... + Lk` bytes in all.
#[verifier::rlimit(60)]
#[verifier::spinoff_prover]
pub proof fn law_builder_offsets(names: Seq<Seq<char>>, blocks: Seq<Seq<u8>>, k: int)
    requires
        0 <= k <= names.len(),
        k <= blocks.len(),
        forall|i: int, j: int| 0 <= i < j < k ==> names[i] != names[j],
    ensures
        forall|i: int|
            0 <= i < k ==> #[trigger] offsets_after_adds(names, blocks, k).contains_key(names[i])
                && offsets_after_adds(names, blocks, k)[names[i]] == prefix_len_sum(
                blocks,
                i,
            ) as u32,
    decreases k,
{
    if k > 0 {
        law_builder_offsets(names, blocks, k - 1);
        assert forall|i: int|
            0 <= i < k implies #[trigger] offsets_after_adds(names, blocks, k).contains_key(
            names[i],
        ) && offsets_after_adds(names, blocks, k)[names[i]] == prefix_len_sum(blocks, i) as u32 by {
            if i < k - 1 {
                assert(names[i] != names[k - 1]);
                assert(offsets_after_adds(names, blocks, k - 1).contains_key(names[i])
                    && offsets_after_adds(names, blocks, k - 1)[names[i]] == prefix_len_sum(
                    blocks,
                    i,
                ) as u32);
            }
        }
    }
}

} // verus!
