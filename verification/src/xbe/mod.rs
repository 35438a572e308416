//! The XBE container: a convenient in-memory form (`Xbe`) converted to and
//! from the exact on-disk form in [`raw`].
//!
//! The in-memory form keeps the section list editable (new sections are
//! appended at fresh, 32-byte-aligned virtual addresses and 0x1000-aligned
//! raw addresses) while preserving every field needed to re-serialize the
//! image byte-for-byte.

pub mod raw;

use vstd::prelude::*;

verus! {

use crate::bytesutil::{round_up, round_up_u32, zero_bytes};
use crate::error::ParseError;

/// Section flag: the section is writable.
pub const SECTION_FLAG_WRITABLE: u32 = 0x1;

/// Section flag: the section is loaded ahead of use.
pub const SECTION_FLAG_PRELOAD: u32 = 0x2;

/// Section flag: the section holds executable code.
pub const SECTION_FLAG_EXECUTABLE: u32 = 0x4;

/// Section flag: the section is an inserted file.
pub const SECTION_FLAG_INSERTED_FILE: u32 = 0x8;

/// Section flag: the section's head page is read-only.
pub const SECTION_FLAG_HEAD_PAGE_READ_ONLY: u32 = 0x10;

/// Section flag: the section's tail page is read-only.
pub const SECTION_FLAG_TAIL_PAGE_READ_ONLY: u32 = 0x20;

/// The PE fields carried through from the original executable.
#[derive(Debug, Clone)]
pub struct PE {
    pub stack_commit: u32,
    pub heap_reserve: u32,
    pub head_commit: u32,
    pub base_address: u32,
    pub size_of_image: u32,
    pub checksum: u32,
    pub timedate: u32,
}

/// Image-wide metadata: everything outside the section list.
#[derive(Debug, Clone)]
pub struct Header {
    /// The 256-byte digital signature, if known.
    pub digital_signature: Option<Vec<u8>>,
    /// ASCII debug pathname, NUL-terminated; contains at least one
    /// backslash.
    pub debug_pathname: Vec<u8>,
    /// ASCII debug filename, NUL-terminated.
    pub debug_filename: Vec<u8>,
    /// UTF-16LE debug filename, NUL-terminated.
    pub debug_unicode_filename: Vec<u16>,
    pub image_time_date: u32,
    pub entry_point: u32,
    pub tls_address: u32,
    pub pe: PE,
    pub kernel_image_thunk_address: u32,
    pub cert_time_date: u32,
    pub title_id: Option<u32>,
    /// The 0x50-byte title name.
    pub title_name: Vec<u8>,
    pub allowed_media: u32,
    pub game_ratings: Option<u32>,
    pub game_region: u32,
    pub cert_version: u32,
    pub lan_key: Option<Vec<u8>>,
    pub signature_key: Option<Vec<u8>>,
    pub alternate_signature_keys: Option<Vec<u8>>,
    /// The certificate's trailing unknown bytes (0x1C of them).
    pub unknown: Vec<u8>,
}

impl Header {
    /// Structural soundness of the header: every blob has its fixed size
    /// and the debug pathname contains a backslash.
    pub open spec fn wf(self) -> bool {
        &&& match self.digital_signature {
            Some(s) => s@.len() == 256,
            None => true,
        }
        &&& 1 <= self.debug_pathname@.len() <= 0x1000
        &&& 1 <= self.debug_unicode_filename@.len() <= 0x1000
        &&& last_backslash(self.debug_pathname@) is Some
        &&& self.title_name@.len() == 0x50
        &&& match self.lan_key {
            Some(k) => k@.len() == 0x10,
            None => true,
        }
        &&& match self.signature_key {
            Some(k) => k@.len() == 0x10,
            None => true,
        }
        &&& match self.alternate_signature_keys {
            Some(k) => k@.len() == 0x100,
            None => true,
        }
        &&& self.unknown@.len() == 0x1C
    }
}

/// One section of the image.
#[derive(Debug, Clone)]
pub struct Section {
    /// The section's name, NUL-terminated.
    pub name: Vec<u8>,
    /// The section's flag bits, preserved verbatim.
    pub flags: u32,
    /// The section's raw data.
    pub data: Vec<u8>,
    pub virtual_address: u32,
    pub virtual_size: u32,
    /// Offset of the data within the on-disk image.
    pub raw_address: u32,
    /// The 20-byte content digest, preserved verbatim when known.
    pub digest: Option<Vec<u8>>,
}

impl Section {
    /// Structural soundness of one section.
    pub open spec fn wf(self) -> bool {
        &&& 1 <= self.name@.len() <= 0x100
        &&& match self.digest {
            Some(d) => d@.len() == 0x14,
            None => true,
        }
        &&& self.virtual_size >= 1
        &&& self.virtual_address + self.virtual_size + 0x20 <= u32::MAX
        &&& self.raw_address % 0x1000 == 0
        &&& self.raw_address + self.virtual_size + 0x1000 <= u32::MAX
        &&& self.data@.len() <= u32::MAX
    }

    /// The section's raw address (its offset in the on-disk image).
    pub fn raw_address(&self) -> (r: u32)
        ensures
            r == self.raw_address,
    {
        self.raw_address
    }
}

/// Index of the last backslash in a byte string, if any.
pub open spec fn last_backslash(s: Seq<u8>) -> Option<int>
    decreases s.len(),
{
    if s.len() == 0 {
        None
    } else if s.last() == 0x5C {
        Some(s.len() - 1)
    } else {
        last_backslash(s.drop_last())
    }
}

/// First library with the given 8-byte name at or after index `i`.
pub open spec fn find_lib_from(ls: Seq<raw::LibraryVersion>, name: Seq<u8>, i: int) -> Option<int>
    decreases ls.len() - i,
{
    if i < 0 || i >= ls.len() {
        None
    } else if ls[i].library_name@ == name {
        Some(i)
    } else {
        find_lib_from(ls, name, i + 1)
    }
}

/// The 8-byte name of the kernel library, `XBOXKRNL`.
pub open spec fn kernel_lib_name() -> Seq<u8> {
    seq![0x58u8, 0x42u8, 0x4Fu8, 0x58u8, 0x4Bu8, 0x52u8, 0x4Eu8, 0x4Cu8]
}

/// The 8-byte name of the XAPI library, `XAPILIB` with a trailing NUL.
pub open spec fn xapi_lib_name() -> Seq<u8> {
    seq![0x58u8, 0x41u8, 0x50u8, 0x49u8, 0x4Cu8, 0x49u8, 0x42u8, 0x00u8]
}

/// The length of the section-data blob that `sections` serialize to: each
/// section's data, the running total padded to 0x1000 after each.
pub open spec fn spec_data_blob_len(sections: Seq<Section>) -> int
    decreases sections.len(),
{
    if sections.len() == 0 {
        0
    } else {
        round_up(
            spec_data_blob_len(sections.drop_last()) + sections.last().data@.len() as int,
            0x1000,
        )
    }
}

/// A parsed XBE image: its header metadata and its editable section list.
pub struct Xbe {
    pub header: Header,
    pub sections: Vec<Section>,
    /// The library-version records, preserved verbatim.
    pub library_versions: Vec<raw::LibraryVersion>,
    /// The logo bitmap, preserved verbatim.
    pub logo_bitmap: raw::LogoBitmap,
}

impl Xbe {
    /// Structural soundness of the image: a sound header, sections at
    /// strictly increasing and disjoint virtual addresses with aligned and
    /// ordered raw addresses, and the kernel and XAPI libraries present.
    pub open spec fn wf(self) -> bool {
        &&& self.header.wf()
        &&& self.sections@.len() <= 0x1000
        &&& forall|i: int| 0 <= i < self.sections@.len() ==> (#[trigger] self.sections@[i]).wf()
        &&& forall|i: int|
            0 <= i < self.sections@.len() - 1 ==> (#[trigger] self.sections@[i]).virtual_address
                + self.sections@[i].virtual_size <= self.sections@[i + 1].virtual_address
        &&& forall|i: int|
            0 <= i < self.sections@.len() - 1 ==> (#[trigger] self.sections@[i]).virtual_address
                < self.sections@[i + 1].virtual_address
        &&& forall|i: int|
            0 <= i < self.sections@.len() - 1 ==> (#[trigger] self.sections@[i]).raw_address
                <= self.sections@[i + 1].raw_address
        &&& spec_data_blob_len(self.sections@) <= 0x4000_0000
        &&& 1 <= self.library_versions@.len() <= 0x1000
        &&& forall|i: int|
            0 <= i < self.library_versions@.len() ==> (#[trigger] self.library_versions@[i]).wf()
        &&& find_lib_from(self.library_versions@, kernel_lib_name(), 0) is Some
        &&& find_lib_from(self.library_versions@, xapi_lib_name(), 0) is Some
        &&& self.logo_bitmap.bitmap@.len() <= 0x0100_0000
    }

    /// The first 32-byte-aligned virtual address after the last section,
    /// or 0 for an empty section list.
    pub open spec fn spec_next_virtual_address(self) -> int {
        if self.sections@.len() == 0 {
            0
        } else {
            round_up(
                self.sections@.last().virtual_address + self.sections@.last().virtual_size as int,
                0x20,
            )
        }
    }

    /// The raw address at which the next appended section will be placed.
    pub open spec fn spec_next_raw_address(self) -> int {
        if self.sections@.len() == 0 {
            0
        } else {
            round_up(
                self.sections@.last().raw_address + self.sections@.last().virtual_size as int,
                0x1000,
            )
        }
    }

    /// Returns the first 32-byte-aligned virtual address after the current
    /// last section (or 0 if there is none).
    pub fn get_next_virtual_address(&self) -> (r: u32)
        requires
            self.wf(),
        ensures
            r == self.spec_next_virtual_address(),
            r % 0x20 == 0,
    {
        proof {
            lemma_next_addresses(*self);
        }
        let n = self.sections.len();
        if n == 0 {
            0
        } else {
            let s = &self.sections[n - 1];
            let end = s.virtual_address + s.virtual_size;
            round_up_u32(end, 0x20)
        }
    }

    /// Rounds `after` up to the next multiple of 32.
    pub fn get_next_virtual_address_after(&self, after: u32) -> (r: u32)
        requires
            after <= u32::MAX - 0x1F,
        ensures
            r == round_up(after as int, 0x20),
            r % 0x20 == 0,
            after <= r,
    {
        proof {
            crate::bytesutil::lemma_round_up(after as int, 0x20);
        }
        round_up_u32(after, 0x20)
    }

    /// Appends a new section at the given virtual address; its raw address
    /// is placed after all existing sections, padded to a 0x1000 boundary.
    ///
    /// The virtual address must lie at or beyond the next free virtual
    /// address, so the section list stays ordered and disjoint.
    pub fn add_section(
        &mut self,
        name: Vec<u8>,
        flags: u32,
        data: Vec<u8>,
        virtual_address: u32,
        virtual_size: u32,
    )
        requires
            old(self).wf(),
            1 <= name@.len() <= 0x100,
            virtual_size >= 1,
            virtual_address >= old(self).spec_next_virtual_address(),
            old(self).sections@.len() > 0 ==> virtual_address > old(
                self,
            ).sections@.last().virtual_address,
            virtual_address + virtual_size + 0x20 <= u32::MAX,
            old(self).spec_next_raw_address() + virtual_size + 0x1000 <= u32::MAX,
            old(self).sections@.len() < 0x1000,
            data@.len() <= u32::MAX,
            round_up(spec_data_blob_len(old(self).sections@) + data@.len() as int, 0x1000)
                <= 0x4000_0000,
        ensures
            final(self).wf(),
            final(self).header == old(self).header,
            final(self).library_versions == old(self).library_versions,
            final(self).logo_bitmap == old(self).logo_bitmap,
            final(self).sections@.len() == old(self).sections@.len() + 1,
            final(self).sections@.drop_last() == old(self).sections@,
            final(self).sections@.last().name == name,
            final(self).sections@.last().flags == flags,
            final(self).sections@.last().data == data,
            final(self).sections@.last().virtual_address == virtual_address,
            final(self).sections@.last().virtual_size == virtual_size,
            final(self).sections@.last().raw_address == old(self).spec_next_raw_address(),
            final(self).sections@.last().raw_address % 0x1000 == 0,
            final(self).sections@.last().digest is None,
    {
        let n = self.sections.len();
        let raw_address: u32 = if n == 0 {
            0u32
        } else {
            let last = &self.sections[n - 1];
            proof {
                crate::bytesutil::lemma_round_up(
                    last.raw_address + last.virtual_size as int,
                    0x1000,
                );
            }
            round_up_u32(last.raw_address + last.virtual_size, 0x1000)
        };
        let ghost prev = self.sections@;
        let section = Section {
            name,
            flags,
            data,
            virtual_address,
            virtual_size,
            raw_address,
            digest: None,
        };
        self.sections.push(section);
        proof {
            assert(self.sections@.drop_last() =~= prev);
            lemma_next_addresses(*old(self));
            crate::bytesutil::lemma_round_up(virtual_address + virtual_size as int, 0x20);
            if prev.len() > 0 {
                crate::bytesutil::lemma_round_up(
                    prev.last().virtual_address + prev.last().virtual_size as int,
                    0x20,
                );
                crate::bytesutil::lemma_round_up(
                    prev.last().raw_address + prev.last().virtual_size as int,
                    0x1000,
                );
            }
        }
    }

    /// The first section whose virtual extent covers `[start, end)`, if
    /// any.
    pub open spec fn spec_find_covering(sections: Seq<Section>, start: int, end: int) -> Option<
        int,
    >
        decreases sections.len(),
    {
        if sections.len() == 0 {
            None
        } else if sections[0].virtual_address <= start && sections[0].virtual_address
            + sections[0].virtual_size >= end {
            Some(0)
        } else {
            match Self::spec_find_covering(sections.drop_first(), start, end) {
                Some(i) => Some(i + 1),
                None => None,
            }
        }
    }

    /// Whether a single section covers `[start, end)` and carries data
    /// for all of it: exactly the condition under which the range can be
    /// read or overwritten.
    pub open spec fn spec_range_covered(sections: Seq<Section>, start: int, end: int) -> bool {
        match Self::spec_find_covering(sections, start, end) {
            Some(i) => end - sections[i].virtual_address <= sections[i].data@.len(),
            None => false,
        }
    }

    /// Index of the first section whose virtual extent covers
    /// `[start, end)`.
    fn find_covering_index(&self, start: u32, end: u32) -> (r: Option<usize>)
        requires
            start <= end,
        ensures
            match r {
                Some(i) => {
                    &&& Self::spec_find_covering(self.sections@, start as int, end as int)
                        == Some(i as int)
                    &&& i < self.sections@.len()
                    &&& self.sections@[i as int].virtual_address <= start
                    &&& end <= self.sections@[i as int].virtual_address
                        + self.sections@[i as int].virtual_size
                },
                None => Self::spec_find_covering(self.sections@, start as int, end as int)
                    is None,
            },
    {
        proof {
            lemma_find_covering_nonneg(self.sections@, start as int, end as int);
        }
        let n = self.sections.len();
        let mut i: usize = 0;
        while i < n
            invariant
                start <= end,
                i <= n,
                n == self.sections@.len(),
                forall|j: int|
                    0 <= j < i ==> !((#[trigger] self.sections@[j]).virtual_address <= start
                        && self.sections@[j].virtual_address + self.sections@[j].virtual_size
                        >= end),
            decreases n - i,
        {
            let s = &self.sections[i];
            if s.virtual_address <= start && s.virtual_size >= end - s.virtual_address {
                proof {
                    lemma_find_covering_at(self.sections@, start as int, end as int, i as int);
                }
                return Some(i);
            }
            i = i + 1;
        }
        proof {
            if Self::spec_find_covering(self.sections@, start as int, end as int) is Some {
                let k = Self::spec_find_covering(
                    self.sections@,
                    start as int,
                    end as int,
                )->Some_0;
                lemma_find_covering_found(self.sections@, start as int, end as int);
            }
        }
        None
    }

    /// A shared view of the bytes in the virtual range `[start, end)`, if
    /// a single section covers it and carries data for all of it.
    #[verifier::rlimit(60)]
    #[verifier::spinoff_prover]
    pub fn get_bytes(&self, start: u32, end: u32) -> (r: Option<&[u8]>)
        requires
            self.wf(),
            start <= end,
        ensures
            r is Some == Self::spec_range_covered(self.sections@, start as int, end as int),
            match r {
                Some(b) => {
                    &&& Self::spec_find_covering(self.sections@, start as int, end as int)
                        is Some
                    &&& {
                        let i = Self::spec_find_covering(
                            self.sections@,
                            start as int,
                            end as int,
                        )->Some_0;
                        let s = self.sections@[i];
                        &&& end - s.virtual_address <= s.data@.len()
                        &&& b@ == s.data@.subrange(
                            start - s.virtual_address,
                            end - s.virtual_address,
                        )
                    }
                },
                None => true,
            },
    {
        let i = match self.find_covering_index(start, end) {
            Some(i) => i,
            None => {
                return None;
            },
        };
        let s = &self.sections[i];
        let off_start = (start - s.virtual_address) as usize;
        let off_end = (end - s.virtual_address) as usize;
        if off_end > s.data.len() {
            return None;
        }
        Some(vstd::slice::slice_subrange(s.data.as_slice(), off_start, off_end))
    }

    /// Overwrites the bytes at virtual address `start` with `data`, if a
    /// single section covers the range `[start, start + data.len())` and
    /// carries data for all of it. Returns whether the write happened;
    /// nothing changes otherwise.
    #[verifier::rlimit(100)]
    #[verifier::spinoff_prover]
    pub fn write_bytes(&mut self, start: u32, data: &[u8]) -> (r: bool)
        requires
            old(self).wf(),
            start + data@.len() <= u32::MAX,
        ensures
            final(self).wf(),
            final(self).header == old(self).header,
            final(self).library_versions == old(self).library_versions,
            final(self).logo_bitmap == old(self).logo_bitmap,
            final(self).sections@.len() == old(self).sections@.len(),
            r == Self::spec_range_covered(
                old(self).sections@,
                start as int,
                start + data@.len(),
            ),
            !r ==> *final(self) == *old(self),
            r ==> {
                let end = start + data@.len();
                &&& Self::spec_find_covering(old(self).sections@, start as int, end as int)
                    is Some
                &&& {
                    let i = Self::spec_find_covering(
                        old(self).sections@,
                        start as int,
                        end as int,
                    )->Some_0;
                    let s = old(self).sections@[i];
                    let off = start - s.virtual_address;
                    &&& end - s.virtual_address <= s.data@.len()
                    &&& final(self).sections@[i].data@ == Section::spliced(s.data@, off, data@)
                    &&& final(self).sections@[i].name == s.name
                    &&& final(self).sections@[i].flags == s.flags
                    &&& final(self).sections@[i].virtual_address == s.virtual_address
                    &&& final(self).sections@[i].virtual_size == s.virtual_size
                    &&& final(self).sections@[i].raw_address == s.raw_address
                    &&& final(self).sections@[i].digest == s.digest
                    &&& forall|j: int|
                        0 <= j < old(self).sections@.len() && j != i ==> final(self).sections@[j]
                            == old(self).sections@[j]
                }
            },
    {
        let end_u64: u64 = start as u64 + data.len() as u64;
        let end: u32 = end_u64 as u32;
        let i = match self.find_covering_index(start, end) {
            Some(i) => i,
            None => {
                return false;
            },
        };
        let va = self.sections[i].virtual_address;
        let off = (start - va) as usize;
        let dlen = self.sections[i].data.len();
        if dlen < off || dlen - off < data.len() {
            return false;
        }
        let section = &mut self.sections[i];
        splice_into(&mut section.data, off, data);
        proof {
            lemma_blob_len_congruent(final(self).sections@, old(self).sections@);
        }
        true
    }
}

/// Bounds and alignment of the next free virtual and raw addresses.
pub proof fn lemma_next_addresses(x: Xbe)
    requires
        x.wf(),
    ensures
        x.spec_next_virtual_address() >= 0,
        x.spec_next_virtual_address() % 0x20 == 0,
        x.spec_next_raw_address() >= 0,
        x.spec_next_raw_address() % 0x1000 == 0,
        x.sections@.len() == 0 ==> x.spec_next_virtual_address() == 0
            && x.spec_next_raw_address() == 0,
        x.sections@.len() > 0 ==> x.sections@.last().virtual_address
            + x.sections@.last().virtual_size <= x.spec_next_virtual_address()
            < x.sections@.last().virtual_address + x.sections@.last().virtual_size + 0x20,
        x.sections@.len() > 0 ==> x.sections@.last().raw_address
            + x.sections@.last().virtual_size <= x.spec_next_raw_address() < x.sections@.last().raw_address
            + x.sections@.last().virtual_size + 0x1000,
{
    if x.sections@.len() == 0 {
        assert(0int % 0x20 == 0 && 0int % 0x1000 == 0);
    } else {
        let last = x.sections@.last();
        crate::bytesutil::lemma_round_up(last.virtual_address + last.virtual_size as int, 0x20);
        crate::bytesutil::lemma_round_up(last.raw_address + last.virtual_size as int, 0x1000);
    }
}

/// The section-blob length is never negative.
pub proof fn lemma_data_blob_len_nonneg(sections: Seq<Section>)
    ensures
        spec_data_blob_len(sections) >= 0,
    decreases sections.len(),
{
    if sections.len() > 0 {
        lemma_data_blob_len_nonneg(sections.drop_last());
        crate::bytesutil::lemma_round_up(
            spec_data_blob_len(sections.drop_last()) + sections.last().data@.len() as int,
            0x1000,
        );
    }
}

/// The section-blob length depends only on the data lengths.
pub proof fn lemma_blob_len_congruent(a: Seq<Section>, b: Seq<Section>)
    requires
        a.len() == b.len(),
        forall|i: int| 0 <= i < a.len() ==> (#[trigger] a[i]).data@.len() == b[i].data@.len(),
    ensures
        spec_data_blob_len(a) == spec_data_blob_len(b),
    decreases a.len(),
{
    if a.len() > 0 {
        assert forall|i: int| 0 <= i < a.drop_last().len() implies (
        #[trigger] a.drop_last()[i]).data@.len() == b.drop_last()[i].data@.len() by {
            assert(a[i].data@.len() == b[i].data@.len());
        }
        lemma_blob_len_congruent(a.drop_last(), b.drop_last());
    }
}

impl Section {
    /// `base` with `data` written over its bytes starting at `off`.
    pub open spec fn spliced(base: Seq<u8>, off: int, data: Seq<u8>) -> Seq<u8> {
        base.take(off) + data + base.skip(off + data.len() as int)
    }
}

/// If no section before `i` covers `[start, end)` and section `i` does,
/// the first covering section is `i`.
proof fn lemma_find_covering_at(sections: Seq<Section>, start: int, end: int, i: int)
    requires
        0 <= i < sections.len(),
        forall|j: int|
            0 <= j < i ==> !((#[trigger] sections[j]).virtual_address <= start && sections[j].virtual_address
                + sections[j].virtual_size >= end),
        sections[i].virtual_address <= start,
        sections[i].virtual_address + sections[i].virtual_size >= end,
    ensures
        Xbe::spec_find_covering(sections, start, end) == Some(i),
    decreases i,
{
    if i == 0 {
    } else {
        assert(sections.drop_first()[i - 1] == sections[i]);
        assert forall|j: int| 0 <= j < i - 1 implies !((#[trigger] sections.drop_first()[j]).virtual_address
            <= start && sections.drop_first()[j].virtual_address
            + sections.drop_first()[j].virtual_size >= end) by {
            assert(sections.drop_first()[j] == sections[j + 1]);
        }
        lemma_find_covering_at(sections.drop_first(), start, end, i - 1);
    }
}

/// Overwrites `dst[off .. off + data.len()]` with `data`.
fn splice_into(dst: &mut Vec<u8>, off: usize, data: &[u8])
    requires
        off + data@.len() <= old(dst)@.len(),
    ensures
        final(dst)@ == Section::spliced(old(dst)@, off as int, data@),
        final(dst)@.len() == old(dst)@.len(),
{
    let n = data.len();
    let dlen = dst.len();
    let mut k: usize = 0;
    while k < n
        invariant
            k <= n,
            n == data@.len(),
            off + n <= dlen,
            dlen == dst@.len(),
            dst@.len() == old(dst)@.len(),
            forall|m: int|
                0 <= m < old(dst)@.len() && !(off <= m < off + k) ==> (#[trigger] dst@[m]) == old(
                    dst,
                )@[m],
            forall|m: int| 0 <= m < k ==> dst@[off + m] == (#[trigger] data@[m]),
        decreases n - k,
    {
        let b = data[k];
        dst[off + k] = b;
        k = k + 1;
    }
    proof {
        assert forall|j: int| 0 <= j < dst@.len() implies dst@[j] == Section::spliced(
            old(dst)@,
            off as int,
            data@,
        )[j] by {
            if off <= j < off + n {
                assert(dst@[off + (j - off)] == data@[j - off]);
            }
        }
        assert(final(dst)@ =~= Section::spliced(old(dst)@, off as int, data@));
    }
}

/// A found covering section really covers the range.
pub proof fn lemma_find_covering_found(sections: Seq<Section>, start: int, end: int)
    requires
        Xbe::spec_find_covering(sections, start, end) is Some,
    ensures
        ({
            let k = Xbe::spec_find_covering(sections, start, end)->Some_0;
            &&& 0 <= k < sections.len()
            &&& sections[k].virtual_address <= start
            &&& sections[k].virtual_address + sections[k].virtual_size >= end
        }),
    decreases sections.len(),
{
    if sections.len() > 0 {
        if !(sections[0].virtual_address <= start && sections[0].virtual_address
            + sections[0].virtual_size >= end) {
            lemma_find_covering_found(sections.drop_first(), start, end);
        }
    }
}

/// A found covering section's index lies within the section list.
proof fn lemma_find_covering_nonneg(sections: Seq<Section>, start: int, end: int)
    ensures
        Xbe::spec_find_covering(sections, start, end) matches Some(k) ==> 0 <= k
            < sections.len(),
    decreases sections.len(),
{
    if sections.len() > 0 {
        lemma_find_covering_nonneg(sections.drop_first(), start, end);
    }
}

/// If no section at or before `i` covers `[start, end)`, the first
/// covering section (if any) comes later.
proof fn lemma_find_covering_skip(sections: Seq<Section>, start: int, end: int, i: int)
    requires
        0 <= i < sections.len(),
        forall|j: int|
            0 <= j <= i ==> !((#[trigger] sections[j]).virtual_address <= start && sections[j].virtual_address
                + sections[j].virtual_size >= end),
    ensures
        Xbe::spec_find_covering(sections, start, end) matches Some(k) ==> k > i,
    decreases i,
{
    if sections.len() > 0 {
        assert(!(sections[0].virtual_address <= start && sections[0].virtual_address
            + sections[0].virtual_size >= end));
        lemma_find_covering_nonneg(sections.drop_first(), start, end);
        if i > 0 {
            assert forall|j: int| 0 <= j <= i - 1 implies !((
            #[trigger] sections.drop_first()[j]).virtual_address <= start
                && sections.drop_first()[j].virtual_address
                + sections.drop_first()[j].virtual_size >= end) by {
                assert(sections.drop_first()[j] == sections[j + 1]);
            }
            lemma_find_covering_skip(sections.drop_first(), start, end, i - 1);
        }
    }
}


/// Total length of the NUL-terminated section names.
pub open spec fn names_size(sections: Seq<Section>) -> int
    decreases sections.len(),
{
    if sections.len() == 0 {
        0
    } else {
        names_size(sections.drop_last()) + sections.last().name@.len()
    }
}

/// The name total is bounded by the per-name cap.
proof fn lemma_names_size_bound(sections: Seq<Section>)
    requires
        forall|i: int| 0 <= i < sections.len() ==> 1 <= (#[trigger] sections[i]).name@.len()
            <= 0x100,
    ensures
        0 <= names_size(sections) <= sections.len() * 0x100,
    decreases sections.len(),
{
    if sections.len() > 0 {
        lemma_names_size_bound(sections.drop_last());
    }
}

/// A fresh copy of a byte vector.
fn clone_bytes(v: &Vec<u8>) -> (r: Vec<u8>)
    ensures
        r@ == v@,
{
    vstd::slice::slice_to_vec(v.as_slice())
}

/// A fresh copy of a vector of 16-bit units.
fn clone_u16s(v: &Vec<u16>) -> (r: Vec<u16>)
    ensures
        r@ == v@,
{
    vstd::slice::slice_to_vec(v.as_slice())
}

/// A vector of `n` zero bytes.
fn zeros_vec(n: usize) -> (r: Vec<u8>)
    ensures
        r@ == zero_bytes(n as int),
{
    let mut v: Vec<u8> = Vec::new();
    crate::bytesutil::push_zeros(&mut v, n);
    v
}

/// Finds the first library-version record with the given 8-byte name.
fn find_library(ls: &Vec<raw::LibraryVersion>, name: &[u8]) -> (r: Option<usize>)
    ensures
        match r {
            Some(i) => find_lib_from(ls@, name@, 0) == Some(i as int) && i < ls@.len(),
            None => find_lib_from(ls@, name@, 0) is None,
        },
{
    let n = ls.len();
    let mut i: usize = 0;
    while i < n
        invariant
            i <= n,
            n == ls@.len(),
            find_lib_from(ls@, name@, 0) == find_lib_from(ls@, name@, i as int),
        decreases n - i,
    {
        if crate::bytesutil::bytes_eq(ls[i].library_name.as_slice(), name) {
            return Some(i);
        }
        i = i + 1;
    }
    None
}

/// Finds the last backslash in a byte string.
fn rfind_backslash(b: &[u8]) -> (r: Option<usize>)
    ensures
        match r {
            Some(i) => last_backslash(b@) == Some(i as int) && i < b@.len(),
            None => last_backslash(b@) is None,
        },
{
    let mut i: usize = b.len();
    proof {
        assert(b@.take(i as int) =~= b@);
    }
    while i > 0
        invariant
            i <= b@.len(),
            last_backslash(b@) == last_backslash(b@.take(i as int)),
        decreases i,
    {
        i = i - 1;
        proof {
            assert(b@.take(i + 1).drop_last() =~= b@.take(i as int));
            assert(b@.take(i + 1).last() == b@[i as int]);
        }
        if b[i] == 0x5C {
            return Some(i);
        }
    }
    proof {
        assert(b@.take(0) =~= Seq::<u8>::empty());
    }
    None
}

/// The relation between an in-memory image and its on-disk form: every
/// field of the on-disk form is determined by the in-memory image, with
/// all header pointers recomputed from the section list.
pub open spec fn spec_is_conversion(x: Xbe, r: raw::Xbe) -> bool {
    let n = x.sections@.len() as int;
    let nlibs = x.library_versions@.len() as int;
    let base: int = 0x10000;
    let hdr_fixed: int = 0x184int + 0x1EC;
    let shs = 0x38 * n;
    let sprs = 2 * n + 2;
    let names_padded = round_up(names_size(x.sections@), 4);
    let libs_size = 0x10 * nlibs;
    let dbg = 2 * x.header.debug_unicode_filename@.len() + x.header.debug_pathname@.len();
    let logo_size = x.logo_bitmap.bitmap@.len() as int;
    let libs_addr = hdr_fixed + shs + sprs + names_padded + base;
    let uni_addr = libs_addr + libs_size;
    let path_addr = uni_addr + 2 * x.header.debug_unicode_filename@.len();
    let h = r.image_header;
    &&& h.magic_number@ == seq![0x58u8, 0x42u8, 0x45u8, 0x48u8]
    &&& h.digital_signature@ == (match x.header.digital_signature {
        Some(s) => s@,
        None => zero_bytes(256),
    })
    &&& h.base_address == base
    &&& h.size_of_headers == round_up(
        hdr_fixed + shs + sprs + names_padded + libs_size + dbg + logo_size,
        4,
    )
    &&& h.size_of_image == (if n == 0 {
        0
    } else {
        crate::reloc::wrap_sub32(
            round_up(
                x.sections@.last().virtual_address + x.sections@.last().virtual_size as int,
                0x20,
            ) as u32,
            base as u32,
        ) as int
    })
    &&& h.size_of_image_header == 0x184
    &&& h.time_date == x.header.image_time_date
    &&& h.certificate_address == base + 0x184
    &&& h.number_of_sections == n
    &&& h.section_headers_address == base + hdr_fixed
    &&& h.initialization_flags == 5
    &&& h.entry_point == x.header.entry_point
    &&& h.tls_address == x.header.tls_address
    &&& h.pe_stack_commit == x.header.pe.stack_commit
    &&& h.pe_heap_reserve == x.header.pe.heap_reserve
    &&& h.pe_head_commit == x.header.pe.head_commit
    &&& h.pe_base_address == x.header.pe.base_address
    &&& h.pe_size_of_image == x.header.pe.size_of_image
    &&& h.pe_checksum == x.header.pe.checksum
    &&& h.pe_time_date == x.header.pe.timedate
    &&& h.debug_pathname_address == path_addr
    &&& h.debug_filename_address == path_addr + last_backslash(
        x.header.debug_pathname@,
    )->Some_0 + 1
    &&& h.debug_unicode_filename_address == uni_addr
    &&& h.kernel_image_thunk_address == x.header.kernel_image_thunk_address
    &&& h.non_kernel_import_directory_address == 0
    &&& h.number_of_library_versions == nlibs
    &&& h.library_versions_address == libs_addr
    &&& h.kernel_library_version_address == libs_addr + 0x10 * find_lib_from(
        x.library_versions@,
        kernel_lib_name(),
        0,
    )->Some_0
    &&& h.xapi_library_version_address == libs_addr + 0x10 * find_lib_from(
        x.library_versions@,
        xapi_lib_name(),
        0,
    )->Some_0
    &&& h.logo_bitmap_address == libs_addr + libs_size + dbg
    &&& h.logo_bitmap_size == logo_size
    &&& r.certificate.size == 0x1EC
    &&& r.certificate.time_date == x.header.cert_time_date
    &&& r.certificate.title_id == (match x.header.title_id {
        Some(t) => t,
        None => 0,
    })
    &&& r.certificate.title_name@ == x.header.title_name@
    &&& r.certificate.alternate_title_ids@ == zero_bytes(0x40)
    &&& r.certificate.allowed_media == x.header.allowed_media
    &&& r.certificate.game_region == x.header.game_region
    &&& r.certificate.game_ratings == (match x.header.game_ratings {
        Some(g) => g,
        None => 0xFFFFFFFFu32,
    })
    &&& r.certificate.disk_number == 0
    &&& r.certificate.version == x.header.cert_version
    &&& r.certificate.lan_key@ == (match x.header.lan_key {
        Some(k) => k@,
        None => zero_bytes(0x10),
    })
    &&& r.certificate.signature_key@ == (match x.header.signature_key {
        Some(k) => k@,
        None => zero_bytes(0x10),
    })
    &&& r.certificate.alternate_signature_keys@ == (match x.header.alternate_signature_keys {
        Some(k) => k@,
        None => zero_bytes(0x100),
    })
    &&& r.certificate.unknown@ == x.header.unknown@
    &&& r.section_headers@.len() == n
    &&& forall|i: int|
        0 <= i < n ==> {
            let sh = #[trigger] r.section_headers@[i];
            let s = x.sections@[i];
            &&& sh.section_flags == s.flags
            &&& sh.virtual_address == s.virtual_address
            &&& sh.virtual_size == s.virtual_size
            &&& sh.raw_address == s.raw_address
            &&& sh.raw_size == s.data@.len()
            &&& sh.section_name_address == base + hdr_fixed + shs + sprs + names_size(
                x.sections@.take(i),
            )
            &&& sh.section_name_reference_count == 0
            &&& sh.head_shared_page_reference_count_address == base + hdr_fixed + shs + 2 * i
            &&& sh.tail_shared_page_reference_count_address == base + hdr_fixed + shs + 2 * i
                + 2
            &&& sh.section_digest@ == (match s.digest {
                Some(d) => d@,
                None => zero_bytes(0x14),
            })
        }
    &&& r.section_names@.len() == n
    &&& forall|i: int| 0 <= i < n ==> (#[trigger] r.section_names@[i])@ == x.sections@[i].name@
    &&& r.library_versions@.len() == nlibs
    &&& forall|i: int|
        0 <= i < nlibs ==> {
            let rl = #[trigger] r.library_versions@[i];
            let l = x.library_versions@[i];
            &&& rl.library_name@ == l.library_name@
            &&& rl.major_version == l.major_version
            &&& rl.minor_version == l.minor_version
            &&& rl.build_version == l.build_version
            &&& rl.library_flags == l.library_flags
        }
    &&& r.debug_pathname@ == x.header.debug_pathname@
    &&& r.debug_filename@ == x.header.debug_filename@
    &&& r.debug_unicode_filename@ == x.header.debug_unicode_filename@
    &&& r.logo_bitmap.bitmap@ == x.logo_bitmap.bitmap@
    &&& r.sections@.len() == n
    &&& forall|i: int| 0 <= i < n ==> (#[trigger] r.sections@[i]).bytes@ == x.sections@[i].data@
}


/// The raw section blob's length is determined by the data lengths alone.
proof fn lemma_raw_blob_matches(rs: Seq<raw::Section>, hs: Seq<Section>)
    requires
        rs.len() == hs.len(),
        forall|i: int| 0 <= i < rs.len() ==> (#[trigger] rs[i]).bytes@.len()
            == hs[i].data@.len(),
    ensures
        raw::spec_sections_blob(rs).len() == spec_data_blob_len(hs),
    decreases rs.len(),
{
    if rs.len() > 0 {
        assert forall|i: int| 0 <= i < rs.drop_last().len() implies (
        #[trigger] rs.drop_last()[i]).bytes@.len() == hs.drop_last()[i].data@.len() by {
            assert(rs[i].bytes@.len() == hs[i].data@.len());
        }
        lemma_raw_blob_matches(rs.drop_last(), hs.drop_last());
        let p = raw::spec_sections_blob(rs.drop_last());
        crate::bytesutil::lemma_round_up(p.len() + rs.last().bytes@.len() as int, 0x1000);
    }
}

impl Xbe {
    /// Builds the exact on-disk form of this image, recomputing every
    /// header pointer from the current section list.
    #[verifier::rlimit(100)]
    #[verifier::spinoff_prover]
    pub fn convert_to_raw(&self) -> (r: raw::Xbe)
        requires
            self.wf(),
        ensures
            spec_is_conversion(*self, r),
            r.wf(),
    {
        proof {
            lemma_names_size_bound(self.sections@);
        }
        let n = self.sections.len();
        let base: u32 = 0x10000;
        let image_header_size: u32 = 0x184;
        let certificate_size: u32 = 0x1EC;
        let hdr_fixed: u32 = image_header_size + certificate_size;

        let title_id: u32 = match &self.header.title_id {
            Some(t) => *t,
            None => 0,
        };
        let game_ratings: u32 = match &self.header.game_ratings {
            Some(g) => *g,
            None => 0xFFFFFFFF,
        };
        let lan_key: Vec<u8> = match &self.header.lan_key {
            Some(k) => clone_bytes(k),
            None => zeros_vec(0x10),
        };
        let signature_key: Vec<u8> = match &self.header.signature_key {
            Some(k) => clone_bytes(k),
            None => zeros_vec(0x10),
        };
        let alternate_signature_keys: Vec<u8> = match &self.header.alternate_signature_keys {
            Some(k) => clone_bytes(k),
            None => zeros_vec(0x100),
        };
        let certificate = raw::Certificate {
            size: certificate_size,
            time_date: self.header.cert_time_date,
            title_id,
            title_name: clone_bytes(&self.header.title_name),
            alternate_title_ids: zeros_vec(0x40),
            allowed_media: self.header.allowed_media,
            game_region: self.header.game_region,
            game_ratings,
            disk_number: 0,
            version: self.header.cert_version,
            lan_key,
            signature_key,
            alternate_signature_keys,
            unknown: clone_bytes(&self.header.unknown),
        };

        let (section_names, name_offsets, names_total) = self.build_section_names();
        proof {
            crate::bytesutil::lemma_round_up(names_total as int, 4);
        }
        let section_names_size = round_up_u32(names_total, 4);

        let shs: u32 = (n as u32) * 0x38;
        let sprs: u32 = (n as u32) * 2 + 2;

        let section_headers = self.build_section_headers(&name_offsets);

        let nlibs = self.library_versions.len();
        let library_versions = self.clone_library_versions();

        let kernel_pattern: Vec<u8> = vec![0x58u8, 0x42, 0x4F, 0x58, 0x4B, 0x52, 0x4E, 0x4C];
        let xapi_pattern: Vec<u8> = vec![0x58u8, 0x41, 0x50, 0x49, 0x4C, 0x49, 0x42, 0x00];
        proof {
            assert(kernel_pattern@ =~= kernel_lib_name());
            assert(xapi_pattern@ =~= xapi_lib_name());
        }
        let kernel_index: usize = match find_library(&self.library_versions, kernel_pattern.as_slice()) {
            Some(ix) => ix,
            None => {
                proof {
                    assert(false);
                }
                0
            },
        };
        let xapi_index: usize = match find_library(&self.library_versions, xapi_pattern.as_slice()) {
            Some(ix) => ix,
            None => {
                proof {
                    assert(false);
                }
                0
            },
        };
        let libs_size: u32 = (nlibs as u32) * 0x10;

        let sections = self.clone_raw_sections();

        let size_of_image: u32 = if n == 0 {
            0
        } else {
            let last = &self.sections[n - 1];
            proof {
                crate::bytesutil::lemma_round_up(
                    last.virtual_address + last.virtual_size as int,
                    0x20,
                );
            }
            let end = round_up_u32(last.virtual_address + last.virtual_size, 0x20);
            crate::reloc::wrapping_sub_u32(end, base)
        };

        let uni_len = self.header.debug_unicode_filename.len();
        let path_len = self.header.debug_pathname.len();
        let debug_strings_size: u32 = (uni_len as u32) * 2 + (path_len as u32);
        let libs_addr: u32 = hdr_fixed + shs + sprs + section_names_size + base;
        let uni_addr: u32 = libs_addr + libs_size;
        let path_addr: u32 = uni_addr + (uni_len as u32) * 2;
        let bs: usize = match rfind_backslash(self.header.debug_pathname.as_slice()) {
            Some(ix) => ix,
            None => {
                proof {
                    assert(false);
                }
                0
            },
        };
        let filename_addr: u32 = path_addr + (bs as u32) + 1;
        let logo_addr: u32 = libs_addr + libs_size + debug_strings_size;
        let logo_size: u32 = self.logo_bitmap.bitmap.len() as u32;
        proof {
            crate::bytesutil::lemma_round_up(
                hdr_fixed + shs + sprs + section_names_size + libs_size + debug_strings_size
                    + logo_size,
                4,
            );
        }
        let size_of_headers: u32 = round_up_u32(
            hdr_fixed + shs + sprs + section_names_size + libs_size + debug_strings_size
                + logo_size,
            4,
        );

        let magic: Vec<u8> = vec![0x58u8, 0x42, 0x45, 0x48];
        let digital_signature: Vec<u8> = match &self.header.digital_signature {
            Some(sg) => clone_bytes(sg),
            None => zeros_vec(256),
        };
        let image_header = raw::ImageHeader {
            magic_number: magic,
            digital_signature,
            base_address: base,
            size_of_headers,
            size_of_image,
            size_of_image_header: image_header_size,
            time_date: self.header.image_time_date,
            certificate_address: image_header_size + base,
            number_of_sections: n as u32,
            section_headers_address: hdr_fixed + base,
            initialization_flags: 5,
            entry_point: self.header.entry_point,
            tls_address: self.header.tls_address,
            pe_stack_commit: self.header.pe.stack_commit,
            pe_heap_reserve: self.header.pe.heap_reserve,
            pe_head_commit: self.header.pe.head_commit,
            pe_base_address: self.header.pe.base_address,
            pe_size_of_image: self.header.pe.size_of_image,
            pe_checksum: self.header.pe.checksum,
            pe_time_date: self.header.pe.timedate,
            debug_pathname_address: path_addr,
            debug_filename_address: filename_addr,
            debug_unicode_filename_address: uni_addr,
            kernel_image_thunk_address: self.header.kernel_image_thunk_address,
            non_kernel_import_directory_address: 0,
            number_of_library_versions: nlibs as u32,
            library_versions_address: libs_addr,
            kernel_library_version_address: libs_addr + (kernel_index as u32) * 0x10,
            xapi_library_version_address: libs_addr + (xapi_index as u32) * 0x10,
            logo_bitmap_address: logo_addr,
            logo_bitmap_size: logo_size,
        };

        let r = raw::Xbe {
            image_header,
            certificate,
            section_headers,
            section_names,
            library_versions,
            debug_pathname: clone_bytes(&self.header.debug_pathname),
            debug_filename: clone_bytes(&self.header.debug_filename),
            debug_unicode_filename: clone_u16s(&self.header.debug_unicode_filename),
            logo_bitmap: raw::LogoBitmap { bitmap: clone_bytes(&self.logo_bitmap.bitmap) },
            sections,
        };
        proof {
            lemma_raw_blob_matches(r.sections@, self.sections@);
            assert(spec_is_conversion(*self, r));
            assert(r.wf());
        }
        r
    }
}


impl Xbe {
    /// The NUL-terminated section names, each name's offset within the
    /// concatenated name block, and the block's total length.
    fn build_section_names(&self) -> (r: (Vec<Vec<u8>>, Vec<u32>, u32))
        requires
            self.wf(),
        ensures
            r.0@.len() == self.sections@.len(),
            r.1@.len() == self.sections@.len(),
            forall|j: int| 0 <= j < self.sections@.len() ==> (#[trigger] r.0@[j])@
                == self.sections@[j].name@,
            forall|j: int| 0 <= j < self.sections@.len() ==> (#[trigger] r.1@[j]) == names_size(
                self.sections@.take(j),
            ),
            r.2 == names_size(self.sections@),
            r.2 <= 0x100 * self.sections@.len(),
    {
        proof {
            lemma_names_size_bound(self.sections@);
        }
        let n = self.sections.len();
        let mut section_names: Vec<Vec<u8>> = Vec::new();
        let mut name_offsets: Vec<u32> = Vec::new();
        let mut names_total: u32 = 0;
        let mut i: usize = 0;
        while i < n
            invariant
                self.wf(),
                i <= n,
                n == self.sections@.len(),
                n <= 0x1000,
                section_names@.len() == i,
                name_offsets@.len() == i,
                names_total == names_size(self.sections@.take(i as int)),
                names_total <= 0x100 * i,
                forall|j: int| 0 <= j < i ==> (#[trigger] section_names@[j])@
                    == self.sections@[j].name@,
                forall|j: int| 0 <= j < i ==> (#[trigger] name_offsets@[j]) == names_size(
                    self.sections@.take(j),
                ),
            decreases n - i,
        {
            name_offsets.push(names_total);
            section_names.push(clone_bytes(&self.sections[i].name));
            proof {
                assert(self.sections@.take(i + 1).drop_last() =~= self.sections@.take(i as int));
                assert(self.sections@.take(i + 1).last() == self.sections@[i as int]);
            }
            names_total = names_total + self.sections[i].name.len() as u32;
            i = i + 1;
        }
        proof {
            assert(self.sections@.take(n as int) =~= self.sections@);
        }
        (section_names, name_offsets, names_total)
    }

    /// The on-disk section-header records, with every pointer field
    /// recomputed.
    fn build_section_headers(&self, name_offsets: &Vec<u32>) -> (r: Vec<raw::SectionHeader>)
        requires
            self.wf(),
            name_offsets@.len() == self.sections@.len(),
            forall|j: int| 0 <= j < self.sections@.len() ==> (
            #[trigger] name_offsets@[j]) == names_size(self.sections@.take(j)),
        ensures
            r@.len() == self.sections@.len(),
            forall|j: int|
                0 <= j < self.sections@.len() ==> {
                    let sh = #[trigger] r@[j];
                    let s = self.sections@[j];
                    let n = self.sections@.len() as int;
                    &&& sh.wf()
                    &&& sh.section_flags == s.flags
                    &&& sh.virtual_address == s.virtual_address
                    &&& sh.virtual_size == s.virtual_size
                    &&& sh.raw_address == s.raw_address
                    &&& sh.raw_size == s.data@.len()
                    &&& sh.section_name_address == 0x10000 + 0x370 + 0x38 * n + 2 * n + 2
                        + names_size(self.sections@.take(j))
                    &&& sh.section_name_reference_count == 0
                    &&& sh.head_shared_page_reference_count_address == 0x10000 + 0x370 + 0x38
                        * n + 2 * j
                    &&& sh.tail_shared_page_reference_count_address == 0x10000 + 0x370 + 0x38
                        * n + 2 * j + 2
                    &&& sh.section_digest@ == (match s.digest {
                        Some(d) => d@,
                        None => zero_bytes(0x14),
                    })
                },
    {
        let n = self.sections.len();
        let base: u32 = 0x10000;
        let hdr_fixed: u32 = 0x370;
        let shs: u32 = (n as u32) * 0x38;
        let sprs: u32 = (n as u32) * 2 + 2;
        let mut section_headers: Vec<raw::SectionHeader> = Vec::new();
        let mut k: usize = 0;
        while k < n
            invariant
                self.wf(),
                k <= n,
                n == self.sections@.len(),
                n <= 0x1000,
                name_offsets@.len() == n,
                forall|j: int| 0 <= j < n ==> (#[trigger] name_offsets@[j]) == names_size(
                    self.sections@.take(j),
                ),
                base == 0x10000,
                hdr_fixed == 0x370,
                shs == n * 0x38,
                sprs == n * 2 + 2,
                section_headers@.len() == k,
                forall|j: int|
                    0 <= j < k ==> {
                        let sh = #[trigger] section_headers@[j];
                        let s = self.sections@[j];
                        &&& sh.wf()
                        &&& sh.section_flags == s.flags
                        &&& sh.virtual_address == s.virtual_address
                        &&& sh.virtual_size == s.virtual_size
                        &&& sh.raw_address == s.raw_address
                        &&& sh.raw_size == s.data@.len()
                        &&& sh.section_name_address == base + hdr_fixed + shs + sprs
                            + names_size(self.sections@.take(j))
                        &&& sh.section_name_reference_count == 0
                        &&& sh.head_shared_page_reference_count_address == base + hdr_fixed
                            + shs + 2 * j
                        &&& sh.tail_shared_page_reference_count_address == base + hdr_fixed
                            + shs + 2 * j + 2
                        &&& sh.section_digest@ == (match s.digest {
                            Some(d) => d@,
                            None => zero_bytes(0x14),
                        })
                    },
            decreases n - k,
        {
            proof {
                lemma_names_size_bound(self.sections@.take(k as int));
                assert forall|j: int| 0 <= j < self.sections@.take(k as int).len() implies 1 <= (
                #[trigger] self.sections@.take(k as int)[j]).name@.len() <= 0x100 by {
                    assert(self.sections@.take(k as int)[j] == self.sections@[j]);
                }
            }
            let s = &self.sections[k];
            let digest: Vec<u8> = match &s.digest {
                Some(d) => clone_bytes(d),
                None => zeros_vec(0x14),
            };
            section_headers.push(
                raw::SectionHeader {
                    section_flags: s.flags,
                    virtual_address: s.virtual_address,
                    virtual_size: s.virtual_size,
                    raw_address: s.raw_address,
                    raw_size: s.data.len() as u32,
                    section_name_address: base + hdr_fixed + shs + sprs + name_offsets[k],
                    section_name_reference_count: 0,
                    head_shared_page_reference_count_address: base + hdr_fixed + shs + (k as u32)
                        * 2,
                    tail_shared_page_reference_count_address: base + hdr_fixed + shs + (k as u32)
                        * 2 + 2,
                    section_digest: digest,
                },
            );
            k = k + 1;
        }
        section_headers
    }

    /// A fresh copy of the library-version records.
    fn clone_library_versions(&self) -> (r: Vec<raw::LibraryVersion>)
        requires
            self.wf(),
        ensures
            r@.len() == self.library_versions@.len(),
            forall|j: int|
                0 <= j < self.library_versions@.len() ==> {
                    let rl = #[trigger] r@[j];
                    let l = self.library_versions@[j];
                    &&& rl.wf()
                    &&& rl.library_name@ == l.library_name@
                    &&& rl.major_version == l.major_version
                    &&& rl.minor_version == l.minor_version
                    &&& rl.build_version == l.build_version
                    &&& rl.library_flags == l.library_flags
                },
    {
        let nlibs = self.library_versions.len();
        let mut library_versions: Vec<raw::LibraryVersion> = Vec::new();
        let mut m: usize = 0;
        while m < nlibs
            invariant
                self.wf(),
                m <= nlibs,
                nlibs == self.library_versions@.len(),
                library_versions@.len() == m,
                forall|j: int|
                    0 <= j < m ==> {
                        let rl = #[trigger] library_versions@[j];
                        let l = self.library_versions@[j];
                        &&& rl.wf()
                        &&& rl.library_name@ == l.library_name@
                        &&& rl.major_version == l.major_version
                        &&& rl.minor_version == l.minor_version
                        &&& rl.build_version == l.build_version
                        &&& rl.library_flags == l.library_flags
                    },
            decreases nlibs - m,
        {
            let l = &self.library_versions[m];
            library_versions.push(
                raw::LibraryVersion {
                    library_name: clone_bytes(&l.library_name),
                    major_version: l.major_version,
                    minor_version: l.minor_version,
                    build_version: l.build_version,
                    library_flags: l.library_flags,
                },
            );
            m = m + 1;
        }
        library_versions
    }

    /// A fresh copy of the sections' raw data.
    fn clone_raw_sections(&self) -> (r: Vec<raw::Section>)
        requires
            self.wf(),
        ensures
            r@.len() == self.sections@.len(),
            forall|j: int| 0 <= j < self.sections@.len() ==> (#[trigger] r@[j]).bytes@
                == self.sections@[j].data@,
    {
        let n = self.sections.len();
        let mut sections: Vec<raw::Section> = Vec::new();
        let mut q: usize = 0;
        while q < n
            invariant
                self.wf(),
                q <= n,
                n == self.sections@.len(),
                sections@.len() == q,
                forall|j: int| 0 <= j < q ==> (#[trigger] sections@[j]).bytes@
                    == self.sections@[j].data@,
            decreases n - q,
        {
            sections.push(raw::Section { bytes: clone_bytes(&self.sections[q].data) });
            q = q + 1;
        }
        sections
    }
}




/// Checks that a section-header table is laid out as the in-memory form
/// requires: ordered, disjoint, aligned, and within 32-bit arithmetic
/// bounds. On failure names the offending section's virtual address.
fn validate_section_layout(hdrs: &Vec<raw::SectionHeader>) -> (r: Result<(), ParseError>)
    ensures
        r is Ok <==> {
            &&& forall|i: int| 0 <= i < hdrs@.len() ==> (#[trigger] hdrs@[i]).virtual_size >= 1
            &&& forall|i: int|
                0 <= i < hdrs@.len() ==> (#[trigger] hdrs@[i]).virtual_address
                    + hdrs@[i].virtual_size + 0x20 <= u32::MAX
            &&& forall|i: int|
                0 <= i < hdrs@.len() ==> (#[trigger] hdrs@[i]).raw_address % 0x1000 == 0
            &&& forall|i: int|
                0 <= i < hdrs@.len() ==> (#[trigger] hdrs@[i]).raw_address
                    + hdrs@[i].virtual_size + 0x1000 <= u32::MAX
            &&& forall|i: int|
                0 <= i < hdrs@.len() - 1 ==> (#[trigger] hdrs@[i]).virtual_address < hdrs@[i
                    + 1].virtual_address
            &&& forall|i: int|
                0 <= i < hdrs@.len() - 1 ==> (#[trigger] hdrs@[i]).virtual_address + hdrs@[i].virtual_size
                    <= hdrs@[i + 1].virtual_address
        },
{
    let nh = hdrs.len();
    let mut v: usize = 0;
    while v < nh
        invariant
            v <= nh,
            nh == hdrs@.len(),
            forall|j: int| 0 <= j < v ==> (#[trigger] hdrs@[j]).virtual_size >= 1,
            forall|j: int|
                0 <= j < v ==> (#[trigger] hdrs@[j]).virtual_address + hdrs@[j].virtual_size
                    + 0x20 <= u32::MAX,
            forall|j: int| 0 <= j < v ==> (#[trigger] hdrs@[j]).raw_address % 0x1000 == 0,
            forall|j: int|
                0 <= j < v ==> (#[trigger] hdrs@[j]).raw_address + hdrs@[j].virtual_size
                    + 0x1000 <= u32::MAX,
            forall|j: int|
                0 <= j < v - 1 ==> (#[trigger] hdrs@[j]).virtual_address < hdrs@[j
                    + 1].virtual_address,
            forall|j: int|
                0 <= j < v - 1 ==> (#[trigger] hdrs@[j]).virtual_address
                    + hdrs@[j].virtual_size <= hdrs@[j + 1].virtual_address,
        decreases nh - v,
    {
        let hdr = &hdrs[v];
        if hdr.virtual_size == 0 {
            return Err(ParseError::SectionLayout(hdr.virtual_address));
        }
        if hdr.virtual_address as u64 + hdr.virtual_size as u64 + 0x20 > u32::MAX as u64 {
            return Err(ParseError::SectionLayout(hdr.virtual_address));
        }
        if hdr.raw_address % 0x1000 != 0 {
            return Err(ParseError::SectionLayout(hdr.virtual_address));
        }
        if hdr.raw_address as u64 + hdr.virtual_size as u64 + 0x1000 > u32::MAX as u64 {
            return Err(ParseError::SectionLayout(hdr.virtual_address));
        }
        if v > 0 {
            let prev = &hdrs[v - 1];
            if prev.virtual_address >= hdr.virtual_address {
                return Err(ParseError::SectionLayout(hdr.virtual_address));
            }
            if prev.virtual_address as u64 + prev.virtual_size as u64
                > hdr.virtual_address as u64 {
                return Err(ParseError::SectionLayout(hdr.virtual_address));
            }
        }
        v = v + 1;
    }
    Ok(())
}

/// The validation an on-disk image must pass to become the in-memory
/// form: the standard certificate size, a backslash in the debug
/// pathname, the kernel and XAPI libraries present, and a section table
/// whose entries are ordered, disjoint, aligned and within 32-bit
/// arithmetic bounds.
pub open spec fn raw_convertible(x: raw::Xbe) -> bool {
    &&& x.certificate.size == 0x1EC
    &&& last_backslash(x.debug_pathname@) is Some
    &&& find_lib_from(x.library_versions@, kernel_lib_name(), 0) is Some
    &&& find_lib_from(x.library_versions@, xapi_lib_name(), 0) is Some
    &&& forall|i: int|
        0 <= i < x.section_headers@.len() ==> (#[trigger] x.section_headers@[i]).virtual_size
            >= 1
    &&& forall|i: int|
        0 <= i < x.section_headers@.len() ==> (#[trigger] x.section_headers@[i]).virtual_address
            + x.section_headers@[i].virtual_size + 0x20 <= u32::MAX
    &&& forall|i: int|
        0 <= i < x.section_headers@.len() ==> (#[trigger] x.section_headers@[i]).raw_address
            % 0x1000 == 0
    &&& forall|i: int|
        0 <= i < x.section_headers@.len() ==> (#[trigger] x.section_headers@[i]).raw_address
            + x.section_headers@[i].virtual_size + 0x1000 <= u32::MAX
    &&& forall|i: int|
        0 <= i < x.section_headers@.len() - 1 ==> (
        #[trigger] x.section_headers@[i]).virtual_address
            < x.section_headers@[i + 1].virtual_address
    &&& forall|i: int|
        0 <= i < x.section_headers@.len() - 1 ==> (
        #[trigger] x.section_headers@[i]).virtual_address
            + x.section_headers@[i].virtual_size <= x.section_headers@[i + 1].virtual_address
}


/// Checks everything `from_raw` demands of an on-disk image, failing
/// with the error naming the first violation.
fn check_convertible(x: &raw::Xbe) -> (r: Result<(), ParseError>)
    ensures
        r is Ok <==> raw_convertible(*x),
{
    if x.certificate.size != 0x1EC {
        return Err(ParseError::FieldRange(0x184));
    }
    match rfind_backslash(x.debug_pathname.as_slice()) {
        Some(_) => (),
        None => {
            return Err(ParseError::MalformedDebugPath);
        },
    }
    let kernel_pattern: Vec<u8> = vec![0x58u8, 0x42, 0x4F, 0x58, 0x4B, 0x52, 0x4E, 0x4C];
    let xapi_pattern: Vec<u8> = vec![0x58u8, 0x41, 0x50, 0x49, 0x4C, 0x49, 0x42, 0x00];
    proof {
        assert(kernel_pattern@ =~= kernel_lib_name());
        assert(xapi_pattern@ =~= xapi_lib_name());
    }
    match find_library(&x.library_versions, kernel_pattern.as_slice()) {
        Some(_) => (),
        None => {
            return Err(ParseError::MissingKernelLibrary);
        },
    }
    match find_library(&x.library_versions, xapi_pattern.as_slice()) {
        Some(_) => (),
        None => {
            return Err(ParseError::MissingXapiLibrary);
        },
    }
    validate_section_layout(&x.section_headers)
}

/// How the in-memory form relates to the on-disk form it was built from:
/// sections zipped with their headers and names, every header and
/// certificate field carried over.
pub open spec fn spec_from_raw_rel(h: Xbe, x: raw::Xbe) -> bool {
    &&& h.sections@.len() == x.sections@.len()
    &&& forall|i: int|
        0 <= i < h.sections@.len() ==> {
            let s = #[trigger] h.sections@[i];
            &&& s.name@ == x.section_names@[i]@
            &&& s.flags == x.section_headers@[i].section_flags
            &&& s.data@ == x.sections@[i].bytes@
            &&& s.virtual_address == x.section_headers@[i].virtual_address
            &&& s.virtual_size == x.section_headers@[i].virtual_size
            &&& s.raw_address == x.section_headers@[i].raw_address
            &&& s.digest == Some(x.section_headers@[i].section_digest)
        }
    &&& h.header.entry_point == x.image_header.entry_point
    &&& h.header.tls_address == x.image_header.tls_address
    &&& h.header.image_time_date == x.image_header.time_date
    &&& h.header.kernel_image_thunk_address == x.image_header.kernel_image_thunk_address
    &&& h.header.pe.stack_commit == x.image_header.pe_stack_commit
    &&& h.header.pe.heap_reserve == x.image_header.pe_heap_reserve
    &&& h.header.pe.head_commit == x.image_header.pe_head_commit
    &&& h.header.pe.base_address == x.image_header.pe_base_address
    &&& h.header.pe.size_of_image == x.image_header.pe_size_of_image
    &&& h.header.pe.checksum == x.image_header.pe_checksum
    &&& h.header.pe.timedate == x.image_header.pe_time_date
    &&& h.header.debug_pathname@ == x.debug_pathname@
    &&& h.header.debug_filename@ == x.debug_filename@
    &&& h.header.debug_unicode_filename@ == x.debug_unicode_filename@
    &&& h.header.digital_signature == Some(x.image_header.digital_signature)
    &&& h.header.cert_time_date == x.certificate.time_date
    &&& h.header.title_id == Some(x.certificate.title_id)
    &&& h.header.title_name@ == x.certificate.title_name@
    &&& h.header.allowed_media == x.certificate.allowed_media
    &&& h.header.game_ratings == Some(x.certificate.game_ratings)
    &&& h.header.game_region == x.certificate.game_region
    &&& h.header.cert_version == x.certificate.version
    &&& h.header.lan_key == Some(x.certificate.lan_key)
    &&& h.header.signature_key == Some(x.certificate.signature_key)
    &&& h.header.alternate_signature_keys == Some(x.certificate.alternate_signature_keys)
    &&& h.header.unknown@ == x.certificate.unknown@
    &&& h.library_versions@ == x.library_versions@
    &&& h.logo_bitmap.bitmap@ == x.logo_bitmap.bitmap@
}

impl Xbe {
    /// Builds the in-memory form from a parsed on-disk image, validating
    /// the invariants the in-memory form maintains: a standard-size
    /// certificate, ordered and aligned sections, the kernel and XAPI
    /// libraries present, and a backslash in the debug pathname.
    #[verifier::rlimit(100)]
    #[verifier::spinoff_prover]
    pub fn from_raw(x: raw::Xbe) -> (r: Result<Xbe, ParseError>)
        requires
            x.wf(),
        ensures
            r is Ok <==> raw_convertible(x),
            match r {
                Ok(h) => h.wf() && spec_from_raw_rel(h, x),
                Err(_) => true,
            },
    {
        match check_convertible(&x) {
            Ok(()) => (),
            Err(e) => {
                return Err(e);
            },
        }

        let pe = PE {
            stack_commit: x.image_header.pe_stack_commit,
            heap_reserve: x.image_header.pe_heap_reserve,
            head_commit: x.image_header.pe_head_commit,
            base_address: x.image_header.pe_base_address,
            size_of_image: x.image_header.pe_size_of_image,
            checksum: x.image_header.pe_checksum,
            timedate: x.image_header.pe_time_date,
        };
        let header = Header {
            digital_signature: Some(x.image_header.digital_signature),
            debug_pathname: x.debug_pathname,
            debug_filename: x.debug_filename,
            debug_unicode_filename: x.debug_unicode_filename,
            image_time_date: x.image_header.time_date,
            entry_point: x.image_header.entry_point,
            tls_address: x.image_header.tls_address,
            pe,
            kernel_image_thunk_address: x.image_header.kernel_image_thunk_address,
            cert_time_date: x.certificate.time_date,
            title_id: Some(x.certificate.title_id),
            title_name: x.certificate.title_name,
            allowed_media: x.certificate.allowed_media,
            game_ratings: Some(x.certificate.game_ratings),
            game_region: x.certificate.game_region,
            cert_version: x.certificate.version,
            lan_key: Some(x.certificate.lan_key),
            signature_key: Some(x.certificate.signature_key),
            alternate_signature_keys: Some(x.certificate.alternate_signature_keys),
            unknown: x.certificate.unknown,
        };

        let n = x.sections.len();
        let mut hdrs = x.section_headers;
        let mut datas = x.sections;
        let mut names = x.section_names;
        let ghost g_hdrs = hdrs@;
        let ghost g_datas = datas@;
        let ghost g_names = names@;
        let mut sections: Vec<Section> = Vec::new();
        let mut i: usize = 0;
        while i < n
            invariant
                i <= n,
                n == g_hdrs.len(),
                n == g_datas.len(),
                n == g_names.len(),
                hdrs@ == g_hdrs.skip(i as int),
                datas@ == g_datas.skip(i as int),
                names@ == g_names.skip(i as int),
                forall|j: int| 0 <= j < n ==> (#[trigger] g_hdrs[j]).wf(),
                forall|j: int| 0 <= j < n ==> (#[trigger] g_hdrs[j]).virtual_size >= 1,
                forall|j: int| 0 <= j < n ==> 1 <= (#[trigger] g_names[j])@.len() <= 0x100,
                forall|j: int| 0 <= j < n ==> (#[trigger] g_hdrs[j]).raw_size
                    == g_datas[j].bytes@.len(),
                forall|j: int|
                    0 <= j < n ==> (#[trigger] g_hdrs[j]).virtual_address
                        + g_hdrs[j].virtual_size + 0x20 <= u32::MAX,
                forall|j: int| 0 <= j < n ==> (#[trigger] g_hdrs[j]).raw_address % 0x1000 == 0,
                forall|j: int|
                    0 <= j < n ==> (#[trigger] g_hdrs[j]).raw_address + g_hdrs[j].virtual_size
                        + 0x1000 <= u32::MAX,
                forall|j: int|
                    0 <= j < n - 1 ==> (#[trigger] g_hdrs[j]).virtual_address < g_hdrs[j
                        + 1].virtual_address,
                forall|j: int|
                    0 <= j < n - 1 ==> (#[trigger] g_hdrs[j]).virtual_address
                        + g_hdrs[j].virtual_size <= g_hdrs[j + 1].virtual_address,
                forall|j: int|
                    0 <= j < n - 1 ==> (#[trigger] g_hdrs[j]).raw_address <= g_hdrs[j
                        + 1].raw_address,
                sections@.len() == i,
                forall|j: int|
                    0 <= j < i ==> {
                        let s = #[trigger] sections@[j];
                        &&& s.name@ == g_names[j]@
                        &&& s.flags == g_hdrs[j].section_flags
                        &&& s.data@ == g_datas[j].bytes@
                        &&& s.virtual_address == g_hdrs[j].virtual_address
                        &&& s.virtual_size == g_hdrs[j].virtual_size
                        &&& s.raw_address == g_hdrs[j].raw_address
                        &&& s.digest == Some(g_hdrs[j].section_digest)
                        &&& s.wf()
                    },
                forall|j: int|
                    0 <= j < i - 1 ==> (#[trigger] sections@[j]).virtual_address
                        + sections@[j].virtual_size <= sections@[j + 1].virtual_address,
                forall|j: int|
                    0 <= j < i - 1 ==> (#[trigger] sections@[j]).virtual_address < sections@[j
                        + 1].virtual_address,
                forall|j: int|
                    0 <= j < i - 1 ==> (#[trigger] sections@[j]).raw_address <= sections@[j
                        + 1].raw_address,
            decreases n - i,
        {
            let hdr = hdrs.remove(0);
            let data = datas.remove(0);
            let name = names.remove(0);
            proof {
                assert(g_hdrs.skip(i as int)[0] == g_hdrs[i as int]);
                assert(hdr == g_hdrs[i as int]);
            }
            sections.push(
                Section {
                    name,
                    flags: hdr.section_flags,
                    data: data.bytes,
                    virtual_address: hdr.virtual_address,
                    virtual_size: hdr.virtual_size,
                    raw_address: hdr.raw_address,
                    digest: Some(hdr.section_digest),
                },
            );
            i = i + 1;
        }

        let result = Xbe {
            header,
            sections,
            library_versions: x.library_versions,
            logo_bitmap: x.logo_bitmap,
        };
        proof {
            lemma_raw_blob_matches(g_datas, result.sections@);
            assert(result.wf());
        }
        Ok(result)
    }

    /// Parses an XBE image from its bytes: the exact on-disk reader
    /// followed by the validated conversion, so a successful result is a
    /// sound image whose every record was read from, and re-encodes to,
    /// its byte range in the input.
    pub fn new(bytes: &[u8]) -> (r: Result<Xbe, ParseError>)
        ensures
            r is Ok ==> raw::spec_xbe_loadable(bytes@),
            r is Err ==> !raw::spec_xbe_loadable(bytes@) || exists|rx: raw::Xbe|
                {
                    &&& #[trigger] raw::spec_loaded_from(rx, bytes@)
                    &&& rx.wf()
                    &&& !raw_convertible(rx)
                },
            match r {
                Ok(h) => {
                    &&& h.wf()
                    &&& raw::IMAGE_HEADER_FIXED_SIZE <= bytes@.len()
                    &&& bytes@.subrange(0, 4) == raw::spec_magic()
                    &&& exists|rx: raw::Xbe|
                        {
                            &&& #[trigger] raw::spec_loaded_from(rx, bytes@)
                            &&& rx.wf()
                            &&& raw_convertible(rx)
                            &&& spec_from_raw_rel(h, rx)
                        }
                },
                Err(_) => true,
            },
    {
        let raw = raw::Xbe::load(bytes)?;
        let ghost grx = raw;
        let r = Xbe::from_raw(raw);
        proof {
            if r is Ok {
                assert(raw::spec_loaded_from(grx, bytes@) && grx.wf() && raw_convertible(grx)
                    && spec_from_raw_rel(r->Ok_0, grx));
            } else {
                assert(raw::spec_loaded_from(grx, bytes@) && grx.wf() && !raw_convertible(grx));
            }
        }
        r
    }

    /// Serializes the image: the exact bytes of its recomputed on-disk
    /// form.
    pub fn serialize(&self) -> (r: Result<Vec<u8>, ParseError>)
        requires
            self.wf(),
        ensures
            match r {
                Ok(v) => exists|rx: raw::Xbe|
                    #[trigger] spec_is_conversion(*self, rx) && rx.wf() && v@
                        == rx.spec_serialize(),
                Err(_) => false,
            },
    {
        let rx = self.convert_to_raw();
        let v = rx.serialize();
        proof {
            assert(spec_is_conversion(*self, rx) && rx.wf() && v@ == rx.spec_serialize());
        }
        Ok(v)
    }
}


impl Xbe {
    /// The raw address at which the next appended section will land.
    pub fn next_raw_address(&self) -> (r: u32)
        requires
            self.wf(),
        ensures
            r == self.spec_next_raw_address(),
    {
        proof {
            lemma_next_addresses(*self);
        }
        let n = self.sections.len();
        if n == 0 {
            0
        } else {
            let s = &self.sections[n - 1];
            proof {
                crate::bytesutil::lemma_round_up(s.raw_address + s.virtual_size as int, 0x1000);
            }
            round_up_u32(s.raw_address + s.virtual_size, 0x1000)
        }
    }

    /// The length of the section-data blob the image serializes to.
    pub fn data_blob_len(&self) -> (r: u64)
        requires
            self.wf(),
        ensures
            r == spec_data_blob_len(self.sections@),
    {
        proof {
            lemma_data_blob_len_nonneg(self.sections@);
        }
        let n = self.sections.len();
        let mut total: u64 = 0;
        let mut i: usize = 0;
        while i < n
            invariant
                self.wf(),
                i <= n,
                n == self.sections@.len(),
                total == spec_data_blob_len(self.sections@.take(i as int)),
                total <= 0x4000_0000,
            decreases n - i,
        {
            proof {
                assert(self.sections@.take(i + 1).drop_last() =~= self.sections@.take(i as int));
                assert(self.sections@.take(i + 1).last() == self.sections@[i as int]);
                lemma_blob_prefix_bound(self.sections@, i + 1);
                crate::bytesutil::lemma_round_up(
                    total + self.sections@[i as int].data@.len() as int,
                    0x1000,
                );
            }
            let dlen = self.sections[i].data.len() as u64;
            let unpadded: u64 = total + dlen;
            let rem: u64 = unpadded % 0x1000;
            total = if rem == 0 {
                unpadded
            } else {
                proof {
                    assert(0 < rem < 0x1000) by (nonlinear_arith)
                        requires
                            rem == (unpadded as int) % 0x1000,
                            rem != 0,
                    ;
                    assert((((0x1000 - rem) as int)) % 0x1000 == (0x1000 - rem) as int)
                        by (nonlinear_arith)
                        requires
                            0 < ((0x1000 - rem) as int),
                            ((0x1000 - rem) as int) < 0x1000,
                    ;
                    reveal(crate::bytesutil::round_up);
                }
                unpadded + (0x1000 - rem)
            };
            i = i + 1;
        }
        proof {
            assert(self.sections@.take(n as int) =~= self.sections@);
        }
        total
    }
}

/// A prefix of the section blob is no longer than the whole, and the
/// whole stays within the supported bound when the image is sound.
proof fn lemma_blob_prefix_bound(sections: Seq<Section>, i: int)
    requires
        0 <= i <= sections.len(),
        spec_data_blob_len(sections) <= 0x4000_0000,
    ensures
        spec_data_blob_len(sections.take(i)) <= 0x4000_0000,
    decreases sections.len() - i,
{
    if i == sections.len() {
        assert(sections.take(i) =~= sections);
    } else {
        lemma_blob_prefix_bound(sections, i + 1);
        let t1 = sections.take(i + 1);
        assert(t1.drop_last() =~= sections.take(i));
        lemma_data_blob_len_nonneg(sections.take(i));
        crate::bytesutil::lemma_round_up(
            spec_data_blob_len(sections.take(i)) + t1.last().data@.len() as int,
            0x1000,
        );
    }
}


/// In a sound image the sections are pairwise disjoint and strictly
/// ordered: for any two sections, the earlier one ends at or before the
/// later one begins.
pub proof fn law_sections_disjoint(x: Xbe, i: int, j: int)
    requires
        x.wf(),
        0 <= i < j < x.sections@.len(),
    ensures
        x.sections@[i].virtual_address < x.sections@[j].virtual_address,
        x.sections@[i].virtual_address + x.sections@[i].virtual_size
            <= x.sections@[j].virtual_address,
    decreases j - i,
{
    if j == i + 1 {
    } else {
        law_sections_disjoint(x, i + 1, j);
        assert(x.sections@[i].virtual_address + x.sections@[i].virtual_size <= x.sections@[i
            + 1].virtual_address);
    }
}

} // verus!
