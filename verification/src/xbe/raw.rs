//! The on-disk representation of an XBE image: fixed-layout records with
//! byte-exact load and serialize, and the whole-image reader and writer.
//!
//! Every record type states its encoding once, as a spec function over
//! byte sequences; `serialize` produces exactly those bytes and `load`
//! returns a record whose encoding is exactly the bytes it consumed.

use vstd::prelude::*;

verus! {

use crate::bytesutil::{
    copy_range, lemma_subrange_concat, pad_to_nearest, push_bytes, push_u16_le, push_u32_le,
    push_zeros, read_u16_at, read_u32_at, resize_bytes, round_up, round_up_usize, spec_resize,
    zero_bytes,
};
use crate::coff::read_cstr;
use crate::error::ParseError;
use vstd::bytes::{
    spec_u16_from_le_bytes, spec_u16_to_le_bytes, spec_u32_from_le_bytes, spec_u32_to_le_bytes,
};

/// Size in bytes of the fixed field block of the image header.
pub const IMAGE_HEADER_FIXED_SIZE: u32 = 0x178;

/// Declared size of an XBE certificate.
pub const CERTIFICATE_SIZE: u32 = 0x1EC;

/// Number of certificate bytes before the trailing unknown block.
pub const CERTIFICATE_FIXED_SIZE: u32 = 0x1D0;

/// Size in bytes of one section header record.
pub const SECTION_HEADER_SIZE: u32 = 0x38;

/// Size in bytes of one library-version record.
pub const LIBRARY_VERSION_SIZE: u32 = 0x10;

/// The four ASCII bytes `XBEH` every image must begin with.
pub open spec fn spec_magic() -> Seq<u8> {
    seq![0x58u8, 0x42u8, 0x45u8, 0x48u8]
}

/// The XBE image header: the magic tag, the digital signature, and the
/// fixed block of 32-bit fields.
#[derive(Debug, Clone)]
pub struct ImageHeader {

    /// The ASCII magic `XBEH`.
    pub magic_number: Vec<u8>,
    /// The 256-byte digital signature.
    pub digital_signature: Vec<u8>,
    pub base_address: u32,
    pub size_of_headers: u32,
    pub size_of_image: u32,
    pub size_of_image_header: u32,
    pub time_date: u32,
    pub certificate_address: u32,
    pub number_of_sections: u32,
    pub section_headers_address: u32,
    pub initialization_flags: u32,
    pub entry_point: u32,
    pub tls_address: u32,
    pub pe_stack_commit: u32,
    pub pe_heap_reserve: u32,
    pub pe_head_commit: u32,
    pub pe_base_address: u32,
    pub pe_size_of_image: u32,
    pub pe_checksum: u32,
    pub pe_time_date: u32,
    pub debug_pathname_address: u32,
    pub debug_filename_address: u32,
    pub debug_unicode_filename_address: u32,
    pub kernel_image_thunk_address: u32,
    pub non_kernel_import_directory_address: u32,
    pub number_of_library_versions: u32,
    pub library_versions_address: u32,
    pub kernel_library_version_address: u32,
    pub xapi_library_version_address: u32,
    pub logo_bitmap_address: u32,
    pub logo_bitmap_size: u32,
}

impl ImageHeader {
    /// Structural soundness: correctly sized blobs and a header size that
    /// covers the fixed fields without being unreasonably large.
    pub open spec fn wf(self) -> bool {
        &&& self.magic_number@.len() == 4
        &&& self.digital_signature@.len() == 256
        &&& IMAGE_HEADER_FIXED_SIZE <= self.size_of_image_header <= 0x1000
    }

    /// The encoding of the fixed field block, without trailing padding.
    pub open spec fn spec_fixed_bytes(self) -> Seq<u8> {
        self.magic_number@ + self.digital_signature@
            + spec_u32_to_le_bytes(self.base_address)
            + spec_u32_to_le_bytes(self.size_of_headers)
            + spec_u32_to_le_bytes(self.size_of_image)
            + spec_u32_to_le_bytes(self.size_of_image_header)
            + spec_u32_to_le_bytes(self.time_date)
            + spec_u32_to_le_bytes(self.certificate_address)
            + spec_u32_to_le_bytes(self.number_of_sections)
            + spec_u32_to_le_bytes(self.section_headers_address)
            + spec_u32_to_le_bytes(self.initialization_flags)
            + spec_u32_to_le_bytes(self.entry_point)
            + spec_u32_to_le_bytes(self.tls_address)
            + spec_u32_to_le_bytes(self.pe_stack_commit)
            + spec_u32_to_le_bytes(self.pe_heap_reserve)
            + spec_u32_to_le_bytes(self.pe_head_commit)
            + spec_u32_to_le_bytes(self.pe_base_address)
            + spec_u32_to_le_bytes(self.pe_size_of_image)
            + spec_u32_to_le_bytes(self.pe_checksum)
            + spec_u32_to_le_bytes(self.pe_time_date)
            + spec_u32_to_le_bytes(self.debug_pathname_address)
            + spec_u32_to_le_bytes(self.debug_filename_address)
            + spec_u32_to_le_bytes(self.debug_unicode_filename_address)
            + spec_u32_to_le_bytes(self.kernel_image_thunk_address)
            + spec_u32_to_le_bytes(self.non_kernel_import_directory_address)
            + spec_u32_to_le_bytes(self.number_of_library_versions)
            + spec_u32_to_le_bytes(self.library_versions_address)
            + spec_u32_to_le_bytes(self.kernel_library_version_address)
            + spec_u32_to_le_bytes(self.xapi_library_version_address)
            + spec_u32_to_le_bytes(self.logo_bitmap_address)
            + spec_u32_to_le_bytes(self.logo_bitmap_size)
    }

    /// The full encoding: the fixed block padded with zeros up to the
    /// declared header size.
    pub open spec fn spec_bytes(self) -> Seq<u8> {
        if self.size_of_image_header > IMAGE_HEADER_FIXED_SIZE {
            self.spec_fixed_bytes() + zero_bytes(
                self.size_of_image_header - IMAGE_HEADER_FIXED_SIZE,
            )
        } else {
            self.spec_fixed_bytes()
        }
    }

    /// Serializes the header to its exact on-disk bytes.
    pub fn serialize(&self) -> (r: Vec<u8>)
        requires
            self.wf(),
        ensures
            r@ == self.spec_bytes(),
            r@.len() == self.size_of_image_header as int,
    {
        let mut v: Vec<u8> = Vec::new();
        push_bytes(&mut v, self.magic_number.as_slice());
        push_bytes(&mut v, self.digital_signature.as_slice());
        push_u32_le(&mut v, self.base_address);
        push_u32_le(&mut v, self.size_of_headers);
        push_u32_le(&mut v, self.size_of_image);
        push_u32_le(&mut v, self.size_of_image_header);
        push_u32_le(&mut v, self.time_date);
        push_u32_le(&mut v, self.certificate_address);
        push_u32_le(&mut v, self.number_of_sections);
        push_u32_le(&mut v, self.section_headers_address);
        push_u32_le(&mut v, self.initialization_flags);
        push_u32_le(&mut v, self.entry_point);
        push_u32_le(&mut v, self.tls_address);
        push_u32_le(&mut v, self.pe_stack_commit);
        push_u32_le(&mut v, self.pe_heap_reserve);
        push_u32_le(&mut v, self.pe_head_commit);
        push_u32_le(&mut v, self.pe_base_address);
        push_u32_le(&mut v, self.pe_size_of_image);
        push_u32_le(&mut v, self.pe_checksum);
        push_u32_le(&mut v, self.pe_time_date);
        push_u32_le(&mut v, self.debug_pathname_address);
        push_u32_le(&mut v, self.debug_filename_address);
        push_u32_le(&mut v, self.debug_unicode_filename_address);
        push_u32_le(&mut v, self.kernel_image_thunk_address);
        push_u32_le(&mut v, self.non_kernel_import_directory_address);
        push_u32_le(&mut v, self.number_of_library_versions);
        push_u32_le(&mut v, self.library_versions_address);
        push_u32_le(&mut v, self.kernel_library_version_address);
        push_u32_le(&mut v, self.xapi_library_version_address);
        push_u32_le(&mut v, self.logo_bitmap_address);
        push_u32_le(&mut v, self.logo_bitmap_size);
        proof {
            vstd::bytes::lemma_auto_spec_u32_to_from_le_bytes();
            assert(v@ == self.spec_fixed_bytes());
        }
        if self.size_of_image_header > IMAGE_HEADER_FIXED_SIZE {
            let pad = (self.size_of_image_header - IMAGE_HEADER_FIXED_SIZE) as usize;
            push_zeros(&mut v, pad);
        }
        v
    }

    /// Reads a header from `bytes` at offset `pos`; the returned record
    /// encodes (fixed block) exactly the bytes it was read from.
    pub fn load(bytes: &[u8], pos: usize) -> (r: Result<ImageHeader, ParseError>)
        ensures
            r is Ok <==> pos + IMAGE_HEADER_FIXED_SIZE <= bytes@.len() && bytes@.subrange(
                pos as int,
                pos + 4,
            ) == spec_magic() && 0x178 <= spec_u32_from_le_bytes(
                bytes@.subrange(pos + 272, pos + 276),
            ) <= 0x1000,
            match r {
                Ok(h) => {
                    &&& h.wf()
                    &&& h.magic_number@ == spec_magic()
                    &&& pos + IMAGE_HEADER_FIXED_SIZE <= bytes@.len()
                    &&& h.spec_fixed_bytes() == bytes@.subrange(
                        pos as int,
                        pos + IMAGE_HEADER_FIXED_SIZE,
                    )
                    &&& h.base_address == spec_u32_from_le_bytes(
                        bytes@.subrange(pos + 260, pos + 264),
                    )
                    &&& h.size_of_image_header == spec_u32_from_le_bytes(
                        bytes@.subrange(pos + 272, pos + 276),
                    )
                    &&& h.certificate_address == spec_u32_from_le_bytes(
                        bytes@.subrange(pos + 280, pos + 284),
                    )
                    &&& h.number_of_sections == spec_u32_from_le_bytes(
                        bytes@.subrange(pos + 284, pos + 288),
                    )
                    &&& h.section_headers_address == spec_u32_from_le_bytes(
                        bytes@.subrange(pos + 288, pos + 292),
                    )
                    &&& h.debug_pathname_address == spec_u32_from_le_bytes(
                        bytes@.subrange(pos + 332, pos + 336),
                    )
                    &&& h.debug_filename_address == spec_u32_from_le_bytes(
                        bytes@.subrange(pos + 336, pos + 340),
                    )
                    &&& h.debug_unicode_filename_address == spec_u32_from_le_bytes(
                        bytes@.subrange(pos + 340, pos + 344),
                    )
                    &&& h.number_of_library_versions == spec_u32_from_le_bytes(
                        bytes@.subrange(pos + 352, pos + 356),
                    )
                    &&& h.library_versions_address == spec_u32_from_le_bytes(
                        bytes@.subrange(pos + 356, pos + 360),
                    )
                    &&& h.logo_bitmap_address == spec_u32_from_le_bytes(
                        bytes@.subrange(pos + 368, pos + 372),
                    )
                    &&& h.logo_bitmap_size == spec_u32_from_le_bytes(
                        bytes@.subrange(pos + 372, pos + 376),
                    )
                },
                Err(_) => true,
            },
    {
        let blen = bytes.len();
        if pos > blen || blen - pos < 0x178 {
            return Err(ParseError::Truncated(pos));
        }
        let magic_number = copy_range(bytes, pos, pos + 4);
        if !(magic_number[0] == 0x58 && magic_number[1] == 0x42 && magic_number[2] == 0x45
            && magic_number[3] == 0x48) {
            proof {
                assert(bytes@.subrange(pos as int, pos + 4) != spec_magic());
            }
            return Err(ParseError::BadMagic);
        }
        proof {
            assert(magic_number@ =~= spec_magic());
        }
        let digital_signature = copy_range(bytes, pos + 4, pos + 260);
        let base_address = read_u32_at(bytes, pos + 260);
        let size_of_headers = read_u32_at(bytes, pos + 264);
        let size_of_image = read_u32_at(bytes, pos + 268);
        let size_of_image_header = read_u32_at(bytes, pos + 272);
        let time_date = read_u32_at(bytes, pos + 276);
        let certificate_address = read_u32_at(bytes, pos + 280);
        let number_of_sections = read_u32_at(bytes, pos + 284);
        let section_headers_address = read_u32_at(bytes, pos + 288);
        let initialization_flags = read_u32_at(bytes, pos + 292);
        let entry_point = read_u32_at(bytes, pos + 296);
        let tls_address = read_u32_at(bytes, pos + 300);
        let pe_stack_commit = read_u32_at(bytes, pos + 304);
        let pe_heap_reserve = read_u32_at(bytes, pos + 308);
        let pe_head_commit = read_u32_at(bytes, pos + 312);
        let pe_base_address = read_u32_at(bytes, pos + 316);
        let pe_size_of_image = read_u32_at(bytes, pos + 320);
        let pe_checksum = read_u32_at(bytes, pos + 324);
        let pe_time_date = read_u32_at(bytes, pos + 328);
        let debug_pathname_address = read_u32_at(bytes, pos + 332);
        let debug_filename_address = read_u32_at(bytes, pos + 336);
        let debug_unicode_filename_address = read_u32_at(bytes, pos + 340);
        let kernel_image_thunk_address = read_u32_at(bytes, pos + 344);
        let non_kernel_import_directory_address = read_u32_at(bytes, pos + 348);
        let number_of_library_versions = read_u32_at(bytes, pos + 352);
        let library_versions_address = read_u32_at(bytes, pos + 356);
        let kernel_library_version_address = read_u32_at(bytes, pos + 360);
        let xapi_library_version_address = read_u32_at(bytes, pos + 364);
        let logo_bitmap_address = read_u32_at(bytes, pos + 368);
        let logo_bitmap_size = read_u32_at(bytes, pos + 372);
        let h = ImageHeader {
            magic_number,
            digital_signature,
            base_address,
            size_of_headers,
            size_of_image,
            size_of_image_header,
            time_date,
            certificate_address,
            number_of_sections,
            section_headers_address,
            initialization_flags,
            entry_point,
            tls_address,
            pe_stack_commit,
            pe_heap_reserve,
            pe_head_commit,
            pe_base_address,
            pe_size_of_image,
            pe_checksum,
            pe_time_date,
            debug_pathname_address,
            debug_filename_address,
            debug_unicode_filename_address,
            kernel_image_thunk_address,
            non_kernel_import_directory_address,
            number_of_library_versions,
            library_versions_address,
            kernel_library_version_address,
            xapi_library_version_address,
            logo_bitmap_address,
            logo_bitmap_size,
        };
        if h.size_of_image_header < 0x178 || h.size_of_image_header > 0x1000 {
            return Err(ParseError::Oversize(pos + 272));
        }
        proof {
            vstd::bytes::lemma_auto_spec_u32_to_from_le_bytes();
            let s = bytes@;
            let p = pos as int;
            lemma_subrange_concat(s, p, p + 4, p + 260);
            lemma_subrange_concat(s, p, p + 260, p + 264);
            lemma_subrange_concat(s, p, p + 264, p + 268);
            lemma_subrange_concat(s, p, p + 268, p + 272);
            lemma_subrange_concat(s, p, p + 272, p + 276);
            lemma_subrange_concat(s, p, p + 276, p + 280);
            lemma_subrange_concat(s, p, p + 280, p + 284);
            lemma_subrange_concat(s, p, p + 284, p + 288);
            lemma_subrange_concat(s, p, p + 288, p + 292);
            lemma_subrange_concat(s, p, p + 292, p + 296);
            lemma_subrange_concat(s, p, p + 296, p + 300);
            lemma_subrange_concat(s, p, p + 300, p + 304);
            lemma_subrange_concat(s, p, p + 304, p + 308);
            lemma_subrange_concat(s, p, p + 308, p + 312);
            lemma_subrange_concat(s, p, p + 312, p + 316);
            lemma_subrange_concat(s, p, p + 316, p + 320);
            lemma_subrange_concat(s, p, p + 320, p + 324);
            lemma_subrange_concat(s, p, p + 324, p + 328);
            lemma_subrange_concat(s, p, p + 328, p + 332);
            lemma_subrange_concat(s, p, p + 332, p + 336);
            lemma_subrange_concat(s, p, p + 336, p + 340);
            lemma_subrange_concat(s, p, p + 340, p + 344);
            lemma_subrange_concat(s, p, p + 344, p + 348);
            lemma_subrange_concat(s, p, p + 348, p + 352);
            lemma_subrange_concat(s, p, p + 352, p + 356);
            lemma_subrange_concat(s, p, p + 356, p + 360);
            lemma_subrange_concat(s, p, p + 360, p + 364);
            lemma_subrange_concat(s, p, p + 364, p + 368);
            lemma_subrange_concat(s, p, p + 368, p + 372);
            lemma_subrange_concat(s, p, p + 372, p + 376);
            assert(h.spec_fixed_bytes() == s.subrange(p, p + 0x178));
        }
        Ok(h)
    }
}


/// The XBE certificate. The trailing `unknown` block preserves the bytes
/// between the documented fields and the certificate's declared size.
#[derive(Debug, Clone)]
pub struct Certificate {
    pub size: u32,
    pub time_date: u32,
    pub title_id: u32,
    pub title_name: Vec<u8>,
    pub alternate_title_ids: Vec<u8>,
    pub allowed_media: u32,
    pub game_region: u32,
    pub game_ratings: u32,
    pub disk_number: u32,
    pub version: u32,
    pub lan_key: Vec<u8>,
    pub signature_key: Vec<u8>,
    pub alternate_signature_keys: Vec<u8>,
    /// Undocumented trailing bytes, `size - 0x1D0` of them.
    pub unknown: Vec<u8>,
}

impl Certificate {
    /// Structural soundness: correctly sized blobs, and an unknown block
    /// matching the declared certificate size.
    pub open spec fn wf(self) -> bool {
        &&& self.title_name@.len() == 0x50
        &&& self.alternate_title_ids@.len() == 0x40
        &&& self.lan_key@.len() == 0x10
        &&& self.signature_key@.len() == 0x10
        &&& self.alternate_signature_keys@.len() == 0x100
        &&& CERTIFICATE_FIXED_SIZE <= self.size <= 0x1000
        &&& self.unknown@.len() == self.size - CERTIFICATE_FIXED_SIZE
    }

    /// The exact encoding; `size` bytes in all.
    pub open spec fn spec_bytes(self) -> Seq<u8> {
        spec_u32_to_le_bytes(self.size)
            + spec_u32_to_le_bytes(self.time_date)
            + spec_u32_to_le_bytes(self.title_id)
            + self.title_name@
            + self.alternate_title_ids@
            + spec_u32_to_le_bytes(self.allowed_media)
            + spec_u32_to_le_bytes(self.game_region)
            + spec_u32_to_le_bytes(self.game_ratings)
            + spec_u32_to_le_bytes(self.disk_number)
            + spec_u32_to_le_bytes(self.version)
            + self.lan_key@
            + self.signature_key@
            + self.alternate_signature_keys@
            + self.unknown@
    }

    /// Serializes the certificate to its exact on-disk bytes.
    pub fn serialize(&self) -> (r: Vec<u8>)
        requires
            self.wf(),
        ensures
            r@ == self.spec_bytes(),
            r@.len() == self.size as int,
    {
        let mut v: Vec<u8> = Vec::new();
        push_u32_le(&mut v, self.size);
        push_u32_le(&mut v, self.time_date);
        push_u32_le(&mut v, self.title_id);
        push_bytes(&mut v, self.title_name.as_slice());
        push_bytes(&mut v, self.alternate_title_ids.as_slice());
        push_u32_le(&mut v, self.allowed_media);
        push_u32_le(&mut v, self.game_region);
        push_u32_le(&mut v, self.game_ratings);
        push_u32_le(&mut v, self.disk_number);
        push_u32_le(&mut v, self.version);
        push_bytes(&mut v, self.lan_key.as_slice());
        push_bytes(&mut v, self.signature_key.as_slice());
        push_bytes(&mut v, self.alternate_signature_keys.as_slice());
        push_bytes(&mut v, self.unknown.as_slice());
        proof {
            vstd::bytes::lemma_auto_spec_u32_to_from_le_bytes();
            assert(v@ == self.spec_bytes());
        }
        v
    }

    /// Reads a certificate from `bytes` at offset `pos`; the returned
    /// record encodes exactly the bytes it was read from.
    pub fn load(bytes: &[u8], pos: usize) -> (r: Result<Certificate, ParseError>)
        ensures
            r is Ok <==> pos + CERTIFICATE_FIXED_SIZE <= bytes@.len() && {
                let size = spec_u32_from_le_bytes(bytes@.subrange(pos as int, pos + 4));
                &&& CERTIFICATE_FIXED_SIZE <= size <= 0x1000
                &&& pos + size <= bytes@.len()
            },
            match r {
                Ok(c) => {
                    &&& c.wf()
                    &&& c.size == spec_u32_from_le_bytes(bytes@.subrange(pos as int, pos + 4))
                    &&& pos + c.size <= bytes@.len()
                    &&& c.spec_bytes() == bytes@.subrange(pos as int, pos + c.size)
                },
                Err(_) => true,
            },
    {
        let blen = bytes.len();
        if pos > blen || blen - pos < 0x1D0 {
            return Err(ParseError::Truncated(pos));
        }
        let size = read_u32_at(bytes, pos + 0);
        let time_date = read_u32_at(bytes, pos + 4);
        let title_id = read_u32_at(bytes, pos + 8);
        let title_name = copy_range(bytes, pos + 12, pos + 92);
        let alternate_title_ids = copy_range(bytes, pos + 92, pos + 156);
        let allowed_media = read_u32_at(bytes, pos + 156);
        let game_region = read_u32_at(bytes, pos + 160);
        let game_ratings = read_u32_at(bytes, pos + 164);
        let disk_number = read_u32_at(bytes, pos + 168);
        let version = read_u32_at(bytes, pos + 172);
        let lan_key = copy_range(bytes, pos + 176, pos + 192);
        let signature_key = copy_range(bytes, pos + 192, pos + 208);
        let alternate_signature_keys = copy_range(bytes, pos + 208, pos + 464);
        if size < 0x1D0 || size > 0x1000 {
            return Err(ParseError::Oversize(pos));
        }
        let unknown_len = (size - 0x1D0) as usize;
        if blen - pos < 0x1D0 + unknown_len {
            return Err(ParseError::Truncated(pos + 0x1D0));
        }
        let unknown = copy_range(bytes, pos + 0x1D0, pos + 0x1D0 + unknown_len);
        let c = Certificate {
            size,
            time_date,
            title_id,
            title_name,
            alternate_title_ids,
            allowed_media,
            game_region,
            game_ratings,
            disk_number,
            version,
            lan_key,
            signature_key,
            alternate_signature_keys,
            unknown,
        };
        proof {
            vstd::bytes::lemma_auto_spec_u32_to_from_le_bytes();
            let s = bytes@;
            let p = pos as int;
            lemma_subrange_concat(s, p, p + 4, p + 8);
            lemma_subrange_concat(s, p, p + 8, p + 12);
            lemma_subrange_concat(s, p, p + 12, p + 92);
            lemma_subrange_concat(s, p, p + 92, p + 156);
            lemma_subrange_concat(s, p, p + 156, p + 160);
            lemma_subrange_concat(s, p, p + 160, p + 164);
            lemma_subrange_concat(s, p, p + 164, p + 168);
            lemma_subrange_concat(s, p, p + 168, p + 172);
            lemma_subrange_concat(s, p, p + 172, p + 176);
            lemma_subrange_concat(s, p, p + 176, p + 192);
            lemma_subrange_concat(s, p, p + 192, p + 208);
            lemma_subrange_concat(s, p, p + 208, p + 464);
            lemma_subrange_concat(s, p, p + 0x1D0, p + c.size);
            assert(c.spec_bytes() == s.subrange(p, p + c.size));
        }
        Ok(c)
    }
}


/// One 0x38-byte section header record.
#[derive(Debug, Clone)]
pub struct SectionHeader {
    pub section_flags: u32,
    pub virtual_address: u32,
    pub virtual_size: u32,
    pub raw_address: u32,
    pub raw_size: u32,
    pub section_name_address: u32,
    pub section_name_reference_count: u32,
    pub head_shared_page_reference_count_address: u32,
    pub tail_shared_page_reference_count_address: u32,
    /// The 20-byte digest of the section's contents, preserved verbatim.
    pub section_digest: Vec<u8>,
}

impl SectionHeader {
    /// Structural soundness: a digest of exactly 20 bytes.
    pub open spec fn wf(self) -> bool {
        self.section_digest@.len() == 0x14
    }

    /// The exact 0x38-byte encoding.
    pub open spec fn spec_bytes(self) -> Seq<u8> {
        spec_u32_to_le_bytes(self.section_flags)
            + spec_u32_to_le_bytes(self.virtual_address)
            + spec_u32_to_le_bytes(self.virtual_size)
            + spec_u32_to_le_bytes(self.raw_address)
            + spec_u32_to_le_bytes(self.raw_size)
            + spec_u32_to_le_bytes(self.section_name_address)
            + spec_u32_to_le_bytes(self.section_name_reference_count)
            + spec_u32_to_le_bytes(self.head_shared_page_reference_count_address)
            + spec_u32_to_le_bytes(self.tail_shared_page_reference_count_address)
            + self.section_digest@
    }

    /// Serializes the record to its exact on-disk bytes.
    pub fn serialize(&self) -> (r: Vec<u8>)
        requires
            self.wf(),
        ensures
            r@ == self.spec_bytes(),
            r@.len() == SECTION_HEADER_SIZE as int,
    {
        let mut v: Vec<u8> = Vec::new();
        push_u32_le(&mut v, self.section_flags);
        push_u32_le(&mut v, self.virtual_address);
        push_u32_le(&mut v, self.virtual_size);
        push_u32_le(&mut v, self.raw_address);
        push_u32_le(&mut v, self.raw_size);
        push_u32_le(&mut v, self.section_name_address);
        push_u32_le(&mut v, self.section_name_reference_count);
        push_u32_le(&mut v, self.head_shared_page_reference_count_address);
        push_u32_le(&mut v, self.tail_shared_page_reference_count_address);
        push_bytes(&mut v, self.section_digest.as_slice());
        proof {
            vstd::bytes::lemma_auto_spec_u32_to_from_le_bytes();
            assert(v@ == self.spec_bytes());
        }
        v
    }

    /// Reads one record from `bytes` at offset `pos`.
    pub fn load(bytes: &[u8], pos: usize) -> (r: Result<SectionHeader, ParseError>)
        ensures
            r is Ok <==> pos + SECTION_HEADER_SIZE <= bytes@.len(),
            match r {
                Ok(h) => {
                    &&& h.wf()
                    &&& h.spec_bytes() == bytes@.subrange(pos as int, pos + SECTION_HEADER_SIZE)
                    &&& h.raw_address == spec_u32_from_le_bytes(
                        bytes@.subrange(pos + 12, pos + 16),
                    )
                    &&& h.raw_size == spec_u32_from_le_bytes(bytes@.subrange(pos + 16, pos + 20))
                    &&& h.section_name_address == spec_u32_from_le_bytes(
                        bytes@.subrange(pos + 20, pos + 24),
                    )
                },
                Err(_) => true,
            },
    {
        let blen = bytes.len();
        if pos > blen || blen - pos < 0x38 {
            return Err(ParseError::Truncated(pos));
        }
        let section_flags = read_u32_at(bytes, pos + 0);
        let virtual_address = read_u32_at(bytes, pos + 4);
        let virtual_size = read_u32_at(bytes, pos + 8);
        let raw_address = read_u32_at(bytes, pos + 12);
        let raw_size = read_u32_at(bytes, pos + 16);
        let section_name_address = read_u32_at(bytes, pos + 20);
        let section_name_reference_count = read_u32_at(bytes, pos + 24);
        let head_shared_page_reference_count_address = read_u32_at(bytes, pos + 28);
        let tail_shared_page_reference_count_address = read_u32_at(bytes, pos + 32);
        let section_digest = copy_range(bytes, pos + 36, pos + 56);
        let h = SectionHeader {
            section_flags,
            virtual_address,
            virtual_size,
            raw_address,
            raw_size,
            section_name_address,
            section_name_reference_count,
            head_shared_page_reference_count_address,
            tail_shared_page_reference_count_address,
            section_digest,
        };
        proof {
            vstd::bytes::lemma_auto_spec_u32_to_from_le_bytes();
            let s = bytes@;
            let p = pos as int;
            lemma_subrange_concat(s, p, p + 4, p + 8);
            lemma_subrange_concat(s, p, p + 8, p + 12);
            lemma_subrange_concat(s, p, p + 12, p + 16);
            lemma_subrange_concat(s, p, p + 16, p + 20);
            lemma_subrange_concat(s, p, p + 20, p + 24);
            lemma_subrange_concat(s, p, p + 24, p + 28);
            lemma_subrange_concat(s, p, p + 28, p + 32);
            lemma_subrange_concat(s, p, p + 32, p + 36);
            lemma_subrange_concat(s, p, p + 36, p + 56);
            assert(h.spec_bytes() == s.subrange(p, p + 56));
        }
        Ok(h)
    }
}

/// The concatenated encodings of a list of section headers.
pub open spec fn spec_section_headers_bytes(hs: Seq<SectionHeader>) -> Seq<u8>
    decreases hs.len(),
{
    if hs.len() == 0 {
        Seq::empty()
    } else {
        spec_section_headers_bytes(hs.drop_last()) + hs.last().spec_bytes()
    }
}

/// Loads `count` consecutive section headers starting at `pos`.
pub fn load_section_headers(bytes: &[u8], pos: usize, count: usize) -> (r: Result<
    Vec<SectionHeader>,
    ParseError,
>)
    requires
        count <= 0x1000,
    ensures
        r is Ok <==> pos + count * SECTION_HEADER_SIZE <= bytes@.len(),
        match r {
            Ok(hs) => {
                &&& hs@.len() == count
                &&& forall|i: int| 0 <= i < count ==> (#[trigger] hs@[i]).wf()
                &&& spec_section_headers_bytes(hs@) == bytes@.subrange(
                    pos as int,
                    pos + count * SECTION_HEADER_SIZE,
                )
                &&& forall|i: int|
                    0 <= i < count ==> {
                        let h = #[trigger] hs@[i];
                        let off = pos + SECTION_HEADER_SIZE * i;
                        &&& h.raw_address == spec_u32_from_le_bytes(
                            bytes@.subrange(off + 12, off + 16),
                        )
                        &&& h.raw_size == spec_u32_from_le_bytes(
                            bytes@.subrange(off + 16, off + 20),
                        )
                        &&& h.section_name_address == spec_u32_from_le_bytes(
                            bytes@.subrange(off + 20, off + 24),
                        )
                    }
            },
            Err(_) => true,
        },
{
    let blen = bytes.len();
    if pos > blen || count * 0x38 > blen - pos {
        return Err(ParseError::Truncated(pos));
    }
    let mut hs: Vec<SectionHeader> = Vec::new();
    let mut i: usize = 0;
    while i < count
        invariant
            i <= count,
            count <= 0x1000,
            hs@.len() == i,
            forall|j: int| 0 <= j < i ==> (#[trigger] hs@[j]).wf(),
            pos + count * SECTION_HEADER_SIZE <= bytes@.len(),
            blen == bytes@.len(),
            spec_section_headers_bytes(hs@) == bytes@.subrange(
                pos as int,
                pos + i * SECTION_HEADER_SIZE,
            ),
            forall|j: int|
                0 <= j < i ==> {
                    let h = #[trigger] hs@[j];
                    let off = pos + SECTION_HEADER_SIZE * j;
                    &&& h.raw_address == spec_u32_from_le_bytes(
                        bytes@.subrange(off + 12, off + 16),
                    )
                    &&& h.raw_size == spec_u32_from_le_bytes(
                        bytes@.subrange(off + 16, off + 20),
                    )
                    &&& h.section_name_address == spec_u32_from_le_bytes(
                        bytes@.subrange(off + 20, off + 24),
                    )
                },
        decreases count - i,
    {
        let h = SectionHeader::load(bytes, pos + i * 0x38)?;
        let ghost prev = hs@;
        hs.push(h);
        i = i + 1;
        proof {
            let s = bytes@;
            let p = pos as int;
            assert(hs@.drop_last() =~= prev);
            lemma_subrange_concat(s, p, p + (i - 1) * 0x38, p + i * 0x38);
        }
    }
    proof {
        if count == 0 {
            assert(bytes@.subrange(pos as int, pos as int) =~= Seq::<u8>::empty());
        }
    }
    Ok(hs)
}


/// One 0x10-byte library-version record.
#[derive(Debug, Clone)]
pub struct LibraryVersion {
    /// The 8-byte library name, NUL-padded.
    pub library_name: Vec<u8>,
    pub major_version: u16,
    pub minor_version: u16,
    pub build_version: u16,
    pub library_flags: u16,
}

impl LibraryVersion {
    /// Structural soundness: a name of exactly 8 bytes.
    pub open spec fn wf(self) -> bool {
        self.library_name@.len() == 8
    }

    /// The exact 0x10-byte encoding.
    pub open spec fn spec_bytes(self) -> Seq<u8> {
        self.library_name@ + spec_u16_to_le_bytes(self.major_version) + spec_u16_to_le_bytes(
            self.minor_version,
        ) + spec_u16_to_le_bytes(self.build_version) + spec_u16_to_le_bytes(self.library_flags)
    }

    /// Serializes the record to its exact on-disk bytes.
    pub fn serialize(&self) -> (r: Vec<u8>)
        requires
            self.wf(),
        ensures
            r@ == self.spec_bytes(),
            r@.len() == LIBRARY_VERSION_SIZE as int,
    {
        let mut v: Vec<u8> = Vec::new();
        push_bytes(&mut v, self.library_name.as_slice());
        push_u16_le(&mut v, self.major_version);
        push_u16_le(&mut v, self.minor_version);
        push_u16_le(&mut v, self.build_version);
        push_u16_le(&mut v, self.library_flags);
        proof {
            vstd::bytes::lemma_auto_spec_u16_to_from_le_bytes();
            assert(v@ == self.spec_bytes());
        }
        v
    }

    /// Reads one record from `bytes` at offset `pos`.
    pub fn load(bytes: &[u8], pos: usize) -> (r: Result<LibraryVersion, ParseError>)
        ensures
            r is Ok <==> pos + LIBRARY_VERSION_SIZE <= bytes@.len(),
            match r {
                Ok(l) => {
                    &&& l.wf()
                    &&& l.spec_bytes() == bytes@.subrange(pos as int, pos + LIBRARY_VERSION_SIZE)
                },
                Err(_) => true,
            },
    {
        let blen = bytes.len();
        if pos > blen || blen - pos < 0x10 {
            return Err(ParseError::Truncated(pos));
        }
        let library_name = copy_range(bytes, pos, pos + 8);
        let major_version = read_u16_at(bytes, pos + 8);
        let minor_version = read_u16_at(bytes, pos + 10);
        let build_version = read_u16_at(bytes, pos + 12);
        let library_flags = read_u16_at(bytes, pos + 14);
        let l = LibraryVersion {
            library_name,
            major_version,
            minor_version,
            build_version,
            library_flags,
        };
        proof {
            vstd::bytes::lemma_auto_spec_u16_to_from_le_bytes();
            let s = bytes@;
            let p = pos as int;
            lemma_subrange_concat(s, p, p + 8, p + 10);
            lemma_subrange_concat(s, p, p + 10, p + 12);
            lemma_subrange_concat(s, p, p + 12, p + 14);
            lemma_subrange_concat(s, p, p + 14, p + 16);
            assert(l.spec_bytes() == s.subrange(p, p + 16));
        }
        Ok(l)
    }
}

/// The concatenated encodings of a list of library versions.
pub open spec fn spec_library_versions_bytes(ls: Seq<LibraryVersion>) -> Seq<u8>
    decreases ls.len(),
{
    if ls.len() == 0 {
        Seq::empty()
    } else {
        spec_library_versions_bytes(ls.drop_last()) + ls.last().spec_bytes()
    }
}

/// Loads `count` consecutive library-version records starting at `pos`.
pub fn load_library_versions(bytes: &[u8], pos: usize, count: usize) -> (r: Result<
    Vec<LibraryVersion>,
    ParseError,
>)
    requires
        count <= 0x1000,
    ensures
        r is Ok <==> pos + count * LIBRARY_VERSION_SIZE <= bytes@.len(),
        match r {
            Ok(ls) => {
                &&& ls@.len() == count
                &&& forall|i: int| 0 <= i < count ==> (#[trigger] ls@[i]).wf()
                &&& spec_library_versions_bytes(ls@) == bytes@.subrange(
                    pos as int,
                    pos + count * LIBRARY_VERSION_SIZE,
                )
            },
            Err(_) => true,
        },
{
    let blen = bytes.len();
    if pos > blen || count * 0x10 > blen - pos {
        return Err(ParseError::Truncated(pos));
    }
    let mut ls: Vec<LibraryVersion> = Vec::new();
    let mut i: usize = 0;
    while i < count
        invariant
            i <= count,
            count <= 0x1000,
            ls@.len() == i,
            forall|j: int| 0 <= j < i ==> (#[trigger] ls@[j]).wf(),
            pos + count * LIBRARY_VERSION_SIZE <= bytes@.len(),
            blen == bytes@.len(),
            spec_library_versions_bytes(ls@) == bytes@.subrange(
                pos as int,
                pos + i * LIBRARY_VERSION_SIZE,
            ),
        decreases count - i,
    {
        let l = LibraryVersion::load(bytes, pos + i * 0x10)?;
        let ghost prev = ls@;
        ls.push(l);
        i = i + 1;
        proof {
            let s = bytes@;
            let p = pos as int;
            assert(ls@.drop_last() =~= prev);
            lemma_subrange_concat(s, p, p + (i - 1) * 0x10, p + i * 0x10);
        }
    }
    proof {
        if count == 0 {
            assert(bytes@.subrange(pos as int, pos as int) =~= Seq::<u8>::empty());
        }
    }
    Ok(ls)
}


/// The logo bitmap, kept as an opaque byte blob.
#[derive(Debug, Clone)]
pub struct LogoBitmap {
    pub bitmap: Vec<u8>,
}

impl LogoBitmap {
    /// Reads `size` bitmap bytes starting at `pos`.
    pub fn load(bytes: &[u8], pos: usize, size: usize) -> (r: Result<LogoBitmap, ParseError>)
        ensures
            r is Ok <==> pos + size <= bytes@.len(),
            match r {
                Ok(l) => l.bitmap@ == bytes@.subrange(pos as int, pos + size),
                Err(_) => true,
            },
    {
        let blen = bytes.len();
        if pos > blen || size > blen - pos {
            return Err(ParseError::Truncated(pos));
        }
        Ok(LogoBitmap { bitmap: copy_range(bytes, pos, pos + size) })
    }

    /// The bitmap's exact bytes.
    pub fn serialize(&self) -> (r: Vec<u8>)
        ensures
            r@ == self.bitmap@,
    {
        let mut v: Vec<u8> = Vec::new();
        push_bytes(&mut v, self.bitmap.as_slice());
        v
    }
}

/// One section's raw data.
#[derive(Debug, Clone)]
pub struct Section {
    pub bytes: Vec<u8>,
}

impl Section {
    /// Reads `raw_size` section bytes starting at `pos`.
    pub fn load(bytes: &[u8], pos: usize, raw_size: usize) -> (r: Result<Section, ParseError>)
        ensures
            r is Ok <==> pos + raw_size <= bytes@.len(),
            match r {
                Ok(sec) => sec.bytes@ == bytes@.subrange(pos as int, pos + raw_size),
                Err(_) => true,
            },
    {
        let blen = bytes.len();
        if pos > blen || raw_size > blen - pos {
            return Err(ParseError::Truncated(pos));
        }
        Ok(Section { bytes: copy_range(bytes, pos, pos + raw_size) })
    }

    /// The section's exact bytes.
    pub fn serialize(&self) -> (r: Vec<u8>)
        ensures
            r@ == self.bytes@,
    {
        let mut v: Vec<u8> = Vec::new();
        push_bytes(&mut v, self.bytes.as_slice());
        v
    }
}


/// The concatenated NUL-terminated section-name strings.
pub open spec fn spec_names_bytes(ns: Seq<Vec<u8>>) -> Seq<u8>
    decreases ns.len(),
{
    if ns.len() == 0 {
        Seq::empty()
    } else {
        spec_names_bytes(ns.drop_last()) + ns.last()@
    }
}

/// The little-endian encoding of a sequence of 16-bit units.
pub open spec fn spec_wide_bytes(ws: Seq<u16>) -> Seq<u8>
    decreases ws.len(),
{
    if ws.len() == 0 {
        Seq::empty()
    } else {
        spec_wide_bytes(ws.drop_last()) + spec_u16_to_le_bytes(ws.last())
    }
}

/// The section-data blob: each section's bytes appended in order, the
/// running total padded to a 0x1000 boundary after each section.
pub open spec fn spec_sections_blob(secs: Seq<Section>) -> Seq<u8>
    decreases secs.len(),
{
    if secs.len() == 0 {
        Seq::empty()
    } else {
        let p = spec_sections_blob(secs.drop_last());
        spec_resize(
            p + secs.last().bytes@,
            round_up(p.len() + secs.last().bytes@.len() as int, 0x1000),
        )
    }
}

/// Every prefix of the section blob is aligned and no longer than the
/// whole blob.
pub proof fn lemma_sections_blob_prefix(secs: Seq<Section>, i: int)
    requires
        0 <= i <= secs.len(),
    ensures
        spec_sections_blob(secs.take(i)).len() <= spec_sections_blob(secs).len(),
        spec_sections_blob(secs).len() % 0x1000 == 0,
    decreases secs.len() - i,
{
    if secs.len() == 0 {
        assert(spec_sections_blob(secs.take(i)) =~= spec_sections_blob(secs));
    } else if i == secs.len() {
        assert(secs.take(i) =~= secs);
        let p = spec_sections_blob(secs.drop_last());
        crate::bytesutil::lemma_round_up(
            p.len() + secs.last().bytes@.len() as int,
            0x1000,
        );
    } else {
        lemma_sections_blob_prefix(secs, i + 1);
        // take(i) of secs equals take(i) of take(i + 1); one unfolding step
        let t1 = secs.take(i + 1);
        assert(t1.drop_last() =~= secs.take(i));
        let p = spec_sections_blob(secs.take(i));
        crate::bytesutil::lemma_round_up(
            p.len() + t1.last().bytes@.len() as int,
            0x1000,
        );
        assert(spec_sections_blob(t1).len() >= p.len());
    }
}

/// The parsed on-disk image: every region of the file as its own record,
/// with the layout driven by the image header's address fields.
#[derive(Debug, Clone)]
pub struct Xbe {
    pub image_header: ImageHeader,
    pub certificate: Certificate,
    pub section_headers: Vec<SectionHeader>,
    /// One NUL-terminated name per section.
    pub section_names: Vec<Vec<u8>>,
    pub library_versions: Vec<LibraryVersion>,
    /// ASCII debug pathname, NUL-terminated.
    pub debug_pathname: Vec<u8>,
    /// ASCII debug filename (a suffix of the pathname), NUL-terminated.
    pub debug_filename: Vec<u8>,
    /// UTF-16LE debug filename, NUL-terminated.
    pub debug_unicode_filename: Vec<u16>,
    pub logo_bitmap: LogoBitmap,
    pub sections: Vec<Section>,
}

impl Xbe {
    /// Base-relative file offset of the certificate.
    pub open spec fn cert_off(self) -> int {
        self.image_header.certificate_address - self.image_header.base_address
    }

    /// Base-relative file offset of the section-header table.
    pub open spec fn shdr_off(self) -> int {
        self.image_header.section_headers_address - self.image_header.base_address
    }

    /// Base-relative file offset of the UTF-16 debug filename.
    pub open spec fn uni_off(self) -> int {
        self.image_header.debug_unicode_filename_address - self.image_header.base_address
    }

    /// Base-relative file offset of the debug pathname.
    pub open spec fn path_off(self) -> int {
        self.image_header.debug_pathname_address - self.image_header.base_address
    }

    /// Base-relative file offset of the logo bitmap.
    pub open spec fn logo_off(self) -> int {
        self.image_header.logo_bitmap_address - self.image_header.base_address
    }

    /// Structural soundness of the whole image: sound records, consistent
    /// counts, region offsets that fit the supported address space, and a
    /// section table ordered by raw address.
    pub open spec fn wf(self) -> bool {
        &&& self.image_header.wf()
        &&& self.certificate.wf()
        &&& forall|i: int|
            0 <= i < self.section_headers@.len() ==> (#[trigger] self.section_headers@[i]).wf()
        &&& forall|i: int|
            0 <= i < self.library_versions@.len() ==> (#[trigger] self.library_versions@[i]).wf()
        &&& self.section_headers@.len() == self.sections@.len()
        &&& self.section_headers@.len() == self.section_names@.len()
        &&& self.section_headers@.len() == self.image_header.number_of_sections as int
        &&& self.section_headers@.len() <= 0x1000
        &&& self.library_versions@.len() == self.image_header.number_of_library_versions as int
        &&& self.library_versions@.len() <= 0x1000
        &&& self.image_header.base_address <= self.image_header.certificate_address
        &&& self.cert_off() <= 0x0800_0000
        &&& self.image_header.base_address <= self.image_header.section_headers_address
        &&& self.shdr_off() <= 0x0800_0000
        &&& self.image_header.base_address <= self.image_header.debug_unicode_filename_address
        &&& self.uni_off() <= 0x0800_0000
        &&& self.image_header.base_address <= self.image_header.debug_pathname_address
        &&& self.path_off() <= 0x0800_0000
        &&& self.image_header.base_address <= self.image_header.logo_bitmap_address
        &&& self.logo_off() <= 0x0800_0000
        &&& forall|i: int|
            0 <= i < self.section_names@.len() ==> 1 <= (
            #[trigger] self.section_names@[i])@.len() <= 0x100
        &&& 1 <= self.debug_pathname@.len() <= 0x1000
        &&& 1 <= self.debug_unicode_filename@.len() <= 0x1000
        &&& self.logo_bitmap.bitmap@.len() <= 0x0100_0000
        &&& forall|i: int|
            0 <= i < self.sections@.len() ==> (#[trigger] self.section_headers@[i]).raw_size
                == self.sections@[i].bytes@.len()
        &&& forall|i: int|
            0 <= i < self.sections@.len() - 1 ==> (
            #[trigger] self.section_headers@[i]).raw_address
                <= self.section_headers@[i + 1].raw_address
        &&& spec_sections_blob(self.sections@).len() <= 0x4000_0000
    }

    /// The exact bytes of the serialized image.
    pub open spec fn spec_serialize(self) -> Seq<u8> {
        let n = self.section_headers@.len() as int;
        let a0 = self.image_header.spec_bytes();
        let a1 = spec_resize(a0, self.cert_off());
        let a2 = a1 + self.certificate.spec_bytes();
        let a3 = spec_resize(a2, self.shdr_off());
        let a4 = a3 + spec_section_headers_bytes(self.section_headers@) + zero_bytes(2 * n + 2)
            + spec_names_bytes(self.section_names@);
        let a5 = spec_resize(a4, round_up(a4.len() as int, 4));
        let a6 = a5 + spec_library_versions_bytes(self.library_versions@);
        let a7 = spec_resize(a6, self.uni_off());
        let a8 = a7 + spec_wide_bytes(self.debug_unicode_filename@);
        let a9 = spec_resize(a8, self.path_off());
        let a10 = a9 + self.debug_pathname@;
        let a11 = spec_resize(a10, self.logo_off());
        let a12 = a11 + self.logo_bitmap.bitmap@;
        let a13 = spec_resize(a12, round_up(a12.len() as int, 0x1000));
        let a14 = a13 + spec_sections_blob(self.sections@);
        a14 + zero_bytes(0x1000)
    }

    /// The section-header table followed by the zeroed shared-page
    /// reference counters.
    fn serialize_section_headers(&self) -> (r: Vec<u8>)
        requires
            self.wf(),
        ensures
            r@ == spec_section_headers_bytes(self.section_headers@) + zero_bytes(
                2 * self.section_headers@.len() as int + 2,
            ),
    {
        let mut v: Vec<u8> = Vec::new();
        let n = self.section_headers.len();
        let mut i: usize = 0;
        while i < n
            invariant
                i <= n,
                n == self.section_headers@.len(),
                self.wf(),
                v@ == spec_section_headers_bytes(self.section_headers@.take(i as int)),
            decreases n - i,
        {
            let mut h = self.section_headers[i].serialize();
            v.append(&mut h);
            i = i + 1;
            proof {
                assert(self.section_headers@.take(i as int).drop_last() =~= self
                    .section_headers@.take(i - 1));
            }
        }
        proof {
            assert(self.section_headers@.take(n as int) =~= self.section_headers@);
        }
        push_zeros(&mut v, n * 2 + 2);
        v
    }

    /// The concatenated section-name strings.
    fn serialize_section_names(&self) -> (r: Vec<u8>)
        requires
            self.wf(),
        ensures
            r@ == spec_names_bytes(self.section_names@),
    {
        let mut v: Vec<u8> = Vec::new();
        let n = self.section_names.len();
        let mut i: usize = 0;
        while i < n
            invariant
                i <= n,
                n == self.section_names@.len(),
                v@ == spec_names_bytes(self.section_names@.take(i as int)),
            decreases n - i,
        {
            push_bytes(&mut v, self.section_names[i].as_slice());
            i = i + 1;
            proof {
                assert(self.section_names@.take(i as int).drop_last() =~= self.section_names@.take(
                    i - 1,
                ));
            }
        }
        proof {
            assert(self.section_names@.take(n as int) =~= self.section_names@);
        }
        v
    }

    /// The concatenated library-version records.
    fn serialize_library_versions(&self) -> (r: Vec<u8>)
        requires
            self.wf(),
        ensures
            r@ == spec_library_versions_bytes(self.library_versions@),
    {
        let mut v: Vec<u8> = Vec::new();
        let n = self.library_versions.len();
        let mut i: usize = 0;
        while i < n
            invariant
                i <= n,
                n == self.library_versions@.len(),
                self.wf(),
                v@ == spec_library_versions_bytes(self.library_versions@.take(i as int)),
            decreases n - i,
        {
            let mut l = self.library_versions[i].serialize();
            v.append(&mut l);
            i = i + 1;
            proof {
                assert(self.library_versions@.take(i as int).drop_last() =~= self
                    .library_versions@.take(i - 1));
            }
        }
        proof {
            assert(self.library_versions@.take(n as int) =~= self.library_versions@);
        }
        v
    }

    /// The section-data blob, each section padded to a 0x1000 boundary.
    fn serialize_sections(&self) -> (r: Vec<u8>)
        requires
            self.wf(),
        ensures
            r@ == spec_sections_blob(self.sections@),
    {
        let mut v: Vec<u8> = Vec::new();
        let n = self.sections.len();
        let mut i: usize = 0;
        while i < n
            invariant
                i <= n,
                n == self.sections@.len(),
                self.wf(),
                v@ == spec_sections_blob(self.sections@.take(i as int)),
            decreases n - i,
        {
            proof {
                lemma_sections_blob_prefix(self.sections@, i as int);
                lemma_sections_blob_prefix(self.sections@, i + 1);
                assert(self.sections@.take(i + 1).drop_last() =~= self.sections@.take(i as int));
                crate::bytesutil::lemma_round_up(
                    v@.len() + self.sections@[i as int].bytes@.len() as int,
                    0x1000,
                );
            }
            push_bytes(&mut v, self.sections[i].bytes.as_slice());
            pad_to_nearest(&mut v, 0x1000);
            i = i + 1;
        }
        proof {
            assert(self.sections@.take(n as int) =~= self.sections@);
        }
        v
    }

    /// Serializes the whole image to its exact on-disk bytes.
    #[verifier::rlimit(100)]
    #[verifier::spinoff_prover]
    pub fn serialize(&self) -> (r: Vec<u8>)
        requires
            self.wf(),
        ensures
            r@ == self.spec_serialize(),
    {
        let mut v = self.image_header.serialize();
        let base = self.image_header.base_address;

        resize_bytes(&mut v, (self.image_header.certificate_address - base) as usize);
        let mut cert = self.certificate.serialize();
        v.append(&mut cert);

        resize_bytes(&mut v, (self.image_header.section_headers_address - base) as usize);
        let mut hdrs = self.serialize_section_headers();
        v.append(&mut hdrs);
        let mut names = self.serialize_section_names();
        v.append(&mut names);

        proof {
            lemma_blob_small_bound(self);
            crate::bytesutil::lemma_round_up(v@.len() as int, 4);
        }
        pad_to_nearest(&mut v, 4);
        let mut libs = self.serialize_library_versions();
        v.append(&mut libs);

        resize_bytes(&mut v, (self.image_header.debug_unicode_filename_address - base) as usize);
        let n_wide = self.debug_unicode_filename.len();
        let ghost mid = v@;
        let mut k: usize = 0;
        while k < n_wide
            invariant
                k <= n_wide,
                n_wide == self.debug_unicode_filename@.len(),
                v@ == mid + spec_wide_bytes(self.debug_unicode_filename@.take(k as int)),
            decreases n_wide - k,
        {
            push_u16_le(&mut v, self.debug_unicode_filename[k]);
            k = k + 1;
            proof {
                assert(self.debug_unicode_filename@.take(k as int).drop_last() =~= self
                    .debug_unicode_filename@.take(k - 1));
            }
        }
        proof {
            assert(self.debug_unicode_filename@.take(n_wide as int) =~= self
                .debug_unicode_filename@);
        }

        resize_bytes(&mut v, (self.image_header.debug_pathname_address - base) as usize);
        push_bytes(&mut v, self.debug_pathname.as_slice());

        resize_bytes(&mut v, (self.image_header.logo_bitmap_address - base) as usize);
        push_bytes(&mut v, self.logo_bitmap.bitmap.as_slice());

        proof {
            crate::bytesutil::lemma_round_up(v@.len() as int, 0x1000);
        }
        pad_to_nearest(&mut v, 0x1000);
        let mut secs = self.serialize_sections();
        v.append(&mut secs);

        push_zeros(&mut v, 0x1000);
        v
    }
}

/// Numeric bound used while serializing: the header-region pieces stay
/// small, so every intermediate length fits comfortably in 32 bits.
proof fn lemma_blob_small_bound(x: &Xbe)
    requires
        x.wf(),
    ensures
        spec_section_headers_bytes(x.section_headers@).len() == SECTION_HEADER_SIZE
            * x.section_headers@.len(),
        spec_names_bytes(x.section_names@).len() <= 0x100 * x.section_names@.len(),
        spec_library_versions_bytes(x.library_versions@).len() == LIBRARY_VERSION_SIZE
            * x.library_versions@.len(),
        spec_wide_bytes(x.debug_unicode_filename@).len() == 2 * x.debug_unicode_filename@.len(),
{
    lemma_shb_len(x.section_headers@);
    lemma_names_len(x.section_names@);
    lemma_lvb_len(x.library_versions@);
    lemma_wide_len(x.debug_unicode_filename@);
}

/// Length of the concatenated section headers.
proof fn lemma_shb_len(hs: Seq<SectionHeader>)
    requires
        forall|i: int| 0 <= i < hs.len() ==> (#[trigger] hs[i]).wf(),
    ensures
        spec_section_headers_bytes(hs).len() == SECTION_HEADER_SIZE * hs.len(),
    decreases hs.len(),
{
    if hs.len() > 0 {
        lemma_shb_len(hs.drop_last());
        vstd::bytes::lemma_auto_spec_u32_to_from_le_bytes();
    }
}

/// Length bound of the concatenated names.
proof fn lemma_names_len(ns: Seq<Vec<u8>>)
    requires
        forall|i: int| 0 <= i < ns.len() ==> (#[trigger] ns[i])@.len() <= 0x100,
    ensures
        spec_names_bytes(ns).len() <= 0x100 * ns.len(),
    decreases ns.len(),
{
    if ns.len() > 0 {
        lemma_names_len(ns.drop_last());
    }
}

/// Length of the concatenated library versions.
proof fn lemma_lvb_len(ls: Seq<LibraryVersion>)
    requires
        forall|i: int| 0 <= i < ls.len() ==> (#[trigger] ls[i]).wf(),
    ensures
        spec_library_versions_bytes(ls).len() == LIBRARY_VERSION_SIZE * ls.len(),
    decreases ls.len(),
{
    if ls.len() > 0 {
        lemma_lvb_len(ls.drop_last());
        vstd::bytes::lemma_auto_spec_u16_to_from_le_bytes();
    }
}

/// Length of the encoded 16-bit units.
proof fn lemma_wide_len(ws: Seq<u16>)
    ensures
        spec_wide_bytes(ws).len() == 2 * ws.len(),
    decreases ws.len(),
{
    if ws.len() > 0 {
        lemma_wide_len(ws.drop_last());
        vstd::bytes::lemma_auto_spec_u16_to_from_le_bytes();
    }
}



/// The fixed field block begins with the magic bytes.
proof fn lemma_fixed_prefix_magic(h: ImageHeader)
    requires
        h.wf(),
    ensures
        h.spec_fixed_bytes().subrange(0, 4) == h.magic_number@,
{
    assert(h.spec_fixed_bytes().subrange(0, 4) =~= h.magic_number@);
}


/// Number of 16-bit units (terminator included) of the NUL-terminated
/// UTF-16 string at `p`, when one ends within `room` units.
pub open spec fn spec_wide_len(b: Seq<u8>, p: int, room: int) -> Option<int>
    decreases room,
{
    if room <= 0 {
        None
    } else if p < 0 || p + 2 > b.len() {
        None
    } else if spec_u16_from_le_bytes(b.subrange(p, p + 2)) == 0 {
        Some(1)
    } else {
        match spec_wide_len(b, p + 2, room - 1) {
            None => None,
            Some(k) => Some(k + 1),
        }
    }
}

/// Whether every section name pointed to by the headers from index `i`
/// on resolves to a short NUL-terminated string inside the bytes.
pub open spec fn spec_names_loadable(b: Seq<u8>, base: int, so: int, nsec: int, i: int) -> bool
    decreases nsec - i,
{
    if i < 0 || i >= nsec {
        true
    } else {
        let na = spec_u32_from_le_bytes(b.subrange(so + 0x38 * i + 20, so + 0x38 * i + 24));
        &&& base <= na
        &&& crate::coff::spec_cstr_end(b, na - base) is Some
        &&& crate::coff::spec_cstr_end(b, na - base)->Some_0 - (na - base) <= 0xFF
        &&& spec_names_loadable(b, base, so, nsec, i + 1)
    }
}

/// Whether every section's raw bytes from index `i` on lie inside the
/// file, at non-decreasing raw addresses, with the running padded total
/// (starting from `total`) inside the supported bound.
pub open spec fn spec_secs_loadable(b: Seq<u8>, so: int, nsec: int, i: int, total: int) -> bool
    decreases nsec - i,
{
    if i < 0 || i >= nsec {
        true
    } else {
        let ra = spec_u32_from_le_bytes(b.subrange(so + 0x38 * i + 12, so + 0x38 * i + 16));
        let rs = spec_u32_from_le_bytes(b.subrange(so + 0x38 * i + 16, so + 0x38 * i + 20));
        &&& ra + rs <= b.len()
        &&& (i > 0 ==> spec_u32_from_le_bytes(
            b.subrange(so + 0x38 * (i - 1) + 12, so + 0x38 * (i - 1) + 16),
        ) <= ra)
        &&& total + rs <= 0x4000_0000 - 0x1000
        &&& spec_secs_loadable(b, so, nsec, i + 1, round_up(total + rs, 0x1000))
    }
}

/// Whether a byte string parses as a whole XBE image: the image header
/// with its magic, and every region the header points at — certificate,
/// logo, section headers, section names, debug strings, section data and
/// library versions — inside the bytes and within the supported bounds.
pub open spec fn spec_xbe_loadable(b: Seq<u8>) -> bool {
    &&& 0x178 <= b.len()
    &&& b.subrange(0, 4) == spec_magic()
    &&& 0x178 <= spec_u32_from_le_bytes(b.subrange(272, 276)) <= 0x1000
    &&& {
        let base = spec_u32_from_le_bytes(b.subrange(260, 264)) as int;
        let cert_addr = spec_u32_from_le_bytes(b.subrange(280, 284)) as int;
        let nsec = spec_u32_from_le_bytes(b.subrange(284, 288)) as int;
        let shdr_addr = spec_u32_from_le_bytes(b.subrange(288, 292)) as int;
        let path_addr = spec_u32_from_le_bytes(b.subrange(332, 336)) as int;
        let fn_addr = spec_u32_from_le_bytes(b.subrange(336, 340)) as int;
        let uni_addr = spec_u32_from_le_bytes(b.subrange(340, 344)) as int;
        let nlibs = spec_u32_from_le_bytes(b.subrange(352, 356)) as int;
        let libs_addr = spec_u32_from_le_bytes(b.subrange(356, 360)) as int;
        let logo_addr = spec_u32_from_le_bytes(b.subrange(368, 372)) as int;
        let logo_size = spec_u32_from_le_bytes(b.subrange(372, 376)) as int;
        let so = shdr_addr - base;
        &&& base <= cert_addr && cert_addr - base <= 0x0800_0000
        &&& cert_addr - base + CERTIFICATE_FIXED_SIZE <= b.len()
        &&& {
            let csize = spec_u32_from_le_bytes(
                b.subrange(cert_addr - base, cert_addr - base + 4),
            );
            CERTIFICATE_FIXED_SIZE <= csize <= 0x1000 && cert_addr - base + csize <= b.len()
        }
        &&& base <= logo_addr && logo_addr - base <= 0x0800_0000
        &&& logo_size <= 0x0100_0000
        &&& logo_addr - base + logo_size <= b.len()
        &&& nsec <= 0x1000
        &&& base <= shdr_addr && so <= 0x0800_0000
        &&& so + nsec * SECTION_HEADER_SIZE <= b.len()
        &&& spec_names_loadable(b, base, so, nsec, 0)
        &&& base <= uni_addr && uni_addr - base <= 0x0800_0000
        &&& base <= path_addr && path_addr - base <= 0x0800_0000
        &&& spec_wide_len(b, uni_addr - base, 0x1000) is Some
        &&& {
            let path_pos = uni_addr - base + 2 * spec_wide_len(
                b,
                uni_addr - base,
                0x1000,
            )->Some_0;
            &&& crate::coff::spec_cstr_end(b, path_pos) is Some
            &&& crate::coff::spec_cstr_end(b, path_pos)->Some_0 - path_pos <= 0xFFF
        }
        &&& base <= fn_addr
        &&& crate::coff::spec_cstr_end(b, fn_addr - base) is Some
        &&& spec_secs_loadable(b, so, nsec, 0, 0)
        &&& nlibs <= 0x1000
        &&& base <= libs_addr && libs_addr - base <= 0x0800_0000
        &&& libs_addr - base + nlibs * LIBRARY_VERSION_SIZE <= b.len()
    }
}

/// What loading ties down: the image began with the magic, and every
/// record of the result encodes exactly the byte range it was read from.
pub open spec fn spec_loaded_from(x: Xbe, b: Seq<u8>) -> bool {
    &&& IMAGE_HEADER_FIXED_SIZE <= b.len()
    &&& b.subrange(0, 4) == spec_magic()
    &&& x.image_header.magic_number@ == spec_magic()
    &&& x.image_header.spec_fixed_bytes() == b.subrange(0, IMAGE_HEADER_FIXED_SIZE as int)
    &&& x.certificate.spec_bytes() == b.subrange(
        x.cert_off(),
        x.cert_off() + x.certificate.size,
    )
    &&& spec_section_headers_bytes(x.section_headers@) == b.subrange(
        x.shdr_off(),
        x.shdr_off() + x.section_headers@.len() * SECTION_HEADER_SIZE,
    )
    &&& spec_library_versions_bytes(x.library_versions@) == b.subrange(
        x.image_header.library_versions_address - x.image_header.base_address,
        x.image_header.library_versions_address - x.image_header.base_address
            + x.library_versions@.len() * LIBRARY_VERSION_SIZE,
    )
    &&& x.logo_bitmap.bitmap@ == b.subrange(
        x.logo_off(),
        x.logo_off() + x.image_header.logo_bitmap_size,
    )
    &&& x.uni_off() + 2 * x.debug_unicode_filename@.len() <= b.len()
    &&& spec_wide_bytes(x.debug_unicode_filename@) == b.subrange(
        x.uni_off(),
        x.uni_off() + 2 * x.debug_unicode_filename@.len(),
    )
    &&& {
        let path_pos = x.uni_off() + 2 * x.debug_unicode_filename@.len();
        &&& path_pos + x.debug_pathname@.len() <= b.len()
        &&& x.debug_pathname@ == b.subrange(path_pos, path_pos + x.debug_pathname@.len())
        &&& x.debug_pathname@.last() == 0
    }
    &&& {
        let fn_pos = x.image_header.debug_filename_address - x.image_header.base_address;
        &&& x.image_header.base_address <= x.image_header.debug_filename_address
        &&& fn_pos + x.debug_filename@.len() <= b.len()
        &&& x.debug_filename@.len() >= 1
        &&& x.debug_filename@ == b.subrange(fn_pos, fn_pos + x.debug_filename@.len())
        &&& x.debug_filename@.last() == 0
    }
    &&& forall|i: int|
        0 <= i < x.sections@.len() ==> (#[trigger] x.sections@[i]).bytes@ == b.subrange(
            x.section_headers@[i].raw_address as int,
            x.section_headers@[i].raw_address + x.section_headers@[i].raw_size,
        )
}

/// Reads little-endian 16-bit units until (and including) a zero unit.
fn read_wide(bytes: &[u8], pos: usize) -> (r: Result<Vec<u16>, ParseError>)
    ensures
        r is Ok <==> spec_wide_len(bytes@, pos as int, 0x1000) is Some,
        match r {
            Ok(ws) => {
                &&& 1 <= ws@.len() <= 0x1000
                &&& ws@.last() == 0
                &&& ws@.len() == spec_wide_len(bytes@, pos as int, 0x1000)->Some_0
                &&& pos + 2 * ws@.len() <= bytes@.len()
                &&& spec_wide_bytes(ws@) == bytes@.subrange(pos as int, pos + 2 * ws@.len())
            },
            Err(_) => true,
        },
{
    let blen = bytes.len();
    if pos > blen {
        return Err(ParseError::Truncated(pos));
    }
    proof {
        assert(bytes@.subrange(pos as int, pos as int) =~= Seq::<u8>::empty());
    }
    let mut out: Vec<u16> = Vec::new();
    let mut p = pos;
    loop
        invariant
            blen == bytes@.len(),
            out@.len() <= 0x0FFF,
            p == pos + 2 * out@.len(),
            p <= blen,
            forall|i: int| 0 <= i < out@.len() ==> (#[trigger] out@[i]) != 0,
            spec_wide_bytes(out@) == bytes@.subrange(pos as int, p as int),
            match spec_wide_len(bytes@, p as int, 0x1000 - out@.len() as int) {
                Some(k) => spec_wide_len(bytes@, pos as int, 0x1000) == Some(
                    out@.len() as int + k,
                ),
                None => spec_wide_len(bytes@, pos as int, 0x1000) is None,
            },
        decreases blen - p,
    {
        if p > blen || blen - p < 2 {
            return Err(ParseError::Truncated(p));
        }
        let c = read_u16_at(bytes, p);
        proof {
            vstd::bytes::lemma_auto_spec_u16_to_from_le_bytes();
        }
        if c == 0 {
            let ghost prev = out@;
            out.push(c);
            proof {
                assert(out@.drop_last() =~= prev);
                lemma_subrange_concat(bytes@, pos as int, p as int, p + 2);
                assert(spec_u16_to_le_bytes(c) =~= bytes@.subrange(p as int, p + 2));
            }
            return Ok(out);
        }
        if out.len() >= 0x0FFF {
            proof {
                assert(spec_wide_len(bytes@, p + 2, 0x1000 - out@.len() as int - 1) is None);
                assert(spec_wide_len(bytes@, p as int, 0x1000 - out@.len() as int) is None);
            }
            return Err(ParseError::Oversize(p));
        }
        let ghost prev = out@;
        out.push(c);
        p = p + 2;
        proof {
            assert(out@.drop_last() =~= prev);
            lemma_subrange_concat(bytes@, pos as int, p - 2, p as int);
            assert(spec_u16_to_le_bytes(c) =~= bytes@.subrange(p - 2, p as int));
        }
    }
}

impl Xbe {
    /// Parses a whole XBE image from its bytes. On success the result is
    /// structurally sound, and its image header re-encodes to the first
    /// 0x178 bytes of the input.
    #[verifier::rlimit(100)]
    #[verifier::spinoff_prover]
    pub fn load(bytes: &[u8]) -> (r: Result<Xbe, ParseError>)
        ensures
            r is Ok <==> spec_xbe_loadable(bytes@),
            match r {
                Ok(x) => x.wf() && spec_loaded_from(x, bytes@),
                Err(_) => true,
            },
    {
        let blen = bytes.len();
        let image_header = match ImageHeader::load(bytes, 0) {
            Ok(h) => h,
            Err(e) => {
                proof {
                    assert(!spec_xbe_loadable(bytes@));
                }
                return Err(e);
            },
        };
        let base = image_header.base_address;

        // Certificate
        if image_header.certificate_address < base || image_header.certificate_address - base
            > 0x0800_0000 {
            proof {
                assert(!spec_xbe_loadable(bytes@));
            }
            return Err(ParseError::FieldRange(0x118));
        }
        let certificate = match Certificate::load(
            bytes,
            (image_header.certificate_address - base) as usize,
        ) {
            Ok(c) => c,
            Err(e) => {
                proof {
                    assert(!spec_xbe_loadable(bytes@));
                }
                return Err(e);
            },
        };

        // Logo bitmap
        if image_header.logo_bitmap_address < base || image_header.logo_bitmap_address - base
            > 0x0800_0000 {
            proof {
                assert(!spec_xbe_loadable(bytes@));
            }
            return Err(ParseError::FieldRange(0x170));
        }
        if image_header.logo_bitmap_size > 0x0100_0000 {
            proof {
                assert(!spec_xbe_loadable(bytes@));
            }
            return Err(ParseError::Oversize(0x174));
        }
        let logo_bitmap = match LogoBitmap::load(
            bytes,
            (image_header.logo_bitmap_address - base) as usize,
            image_header.logo_bitmap_size as usize,
        ) {
            Ok(l) => l,
            Err(e) => {
                proof {
                    assert(!spec_xbe_loadable(bytes@));
                }
                return Err(e);
            },
        };

        // Section headers
        if image_header.number_of_sections > 0x1000 {
            proof {
                assert(!spec_xbe_loadable(bytes@));
            }
            return Err(ParseError::Oversize(0x11C));
        }
        if image_header.section_headers_address < base || image_header.section_headers_address
            - base > 0x0800_0000 {
            proof {
                assert(!spec_xbe_loadable(bytes@));
            }
            return Err(ParseError::FieldRange(0x120));
        }
        let n_sections = image_header.number_of_sections as usize;
        let shdr_off = (image_header.section_headers_address - base) as usize;
        let section_headers = match load_section_headers(bytes, shdr_off, n_sections) {
            Ok(hs) => hs,
            Err(e) => {
                proof {
                    assert(!spec_xbe_loadable(bytes@));
                }
                return Err(e);
            },
        };

        // Section names
        let mut section_names: Vec<Vec<u8>> = Vec::new();
        let mut i: usize = 0;
        while i < n_sections
            invariant
                n_sections == section_headers@.len(),
                section_names@.len() == i,
                i <= n_sections,
                blen == bytes@.len(),
                forall|j: int| 0 <= j < i ==> 1 <= (#[trigger] section_names@[j])@.len() <= 0x100,
                shdr_off == image_header.section_headers_address - base,
                base == spec_u32_from_le_bytes(bytes@.subrange(260, 264)),
                image_header.section_headers_address == spec_u32_from_le_bytes(
                    bytes@.subrange(288, 292),
                ),
                n_sections as int == spec_u32_from_le_bytes(bytes@.subrange(284, 288)) as int,
                forall|j: int|
                    0 <= j < n_sections ==> (#[trigger] section_headers@[j]).section_name_address
                        == spec_u32_from_le_bytes(
                        bytes@.subrange(
                            shdr_off + SECTION_HEADER_SIZE * j + 20,
                            shdr_off + SECTION_HEADER_SIZE * j + 24,
                        ),
                    ),
                spec_names_loadable(bytes@, base as int, shdr_off as int, n_sections as int, 0)
                    <==> spec_names_loadable(
                    bytes@,
                    base as int,
                    shdr_off as int,
                    n_sections as int,
                    i as int,
                ),
            decreases n_sections - i,
        {
            let addr = section_headers[i].section_name_address;
            if addr < base {
                proof {
                    assert(!spec_names_loadable(
                        bytes@,
                        base as int,
                        shdr_off as int,
                        n_sections as int,
                        i as int,
                    ));
                }
                return Err(ParseError::FieldRange(i));
            }
            let mut name = match read_cstr(bytes, (addr - base) as usize) {
                Ok(v) => v,
                Err(e) => {
                    proof {
                        assert(!spec_names_loadable(
                            bytes@,
                            base as int,
                            shdr_off as int,
                            n_sections as int,
                            i as int,
                        ));
                    }
                    return Err(e);
                },
            };
            if name.len() > 0xFF {
                proof {
                    crate::coff::lemma_cstr_end(bytes@, addr - base);
                    assert(!spec_names_loadable(
                        bytes@,
                        base as int,
                        shdr_off as int,
                        n_sections as int,
                        i as int,
                    ));
                }
                return Err(ParseError::Oversize(i));
            }
            name.push(0u8);
            section_names.push(name);
            i = i + 1;
            proof {
                crate::coff::lemma_cstr_end(bytes@, addr - base);
                assert(spec_names_loadable(
                    bytes@,
                    base as int,
                    shdr_off as int,
                    n_sections as int,
                    i - 1,
                ) <==> spec_names_loadable(
                    bytes@,
                    base as int,
                    shdr_off as int,
                    n_sections as int,
                    i as int,
                ));
            }
        }

        // Debug strings
        if image_header.debug_unicode_filename_address < base
            || image_header.debug_unicode_filename_address - base > 0x0800_0000 {
            proof {
                assert(!spec_xbe_loadable(bytes@));
            }
            return Err(ParseError::FieldRange(0x154));
        }
        if image_header.debug_pathname_address < base || image_header.debug_pathname_address
            - base > 0x0800_0000 {
            proof {
                assert(!spec_xbe_loadable(bytes@));
            }
            return Err(ParseError::FieldRange(0x14C));
        }
        let uni_pos = (image_header.debug_unicode_filename_address - base) as usize;
        let debug_unicode_filename = match read_wide(bytes, uni_pos) {
            Ok(w) => w,
            Err(e) => {
                proof {
                    assert(!spec_xbe_loadable(bytes@));
                }
                return Err(e);
            },
        };
        let path_pos = uni_pos + 2 * debug_unicode_filename.len();
        let mut debug_pathname = match read_cstr(bytes, path_pos) {
            Ok(v) => v,
            Err(e) => {
                proof {
                    assert(!spec_xbe_loadable(bytes@));
                }
                return Err(e);
            },
        };
        if debug_pathname.len() > 0xFFF {
            proof {
                crate::coff::lemma_cstr_end(bytes@, path_pos as int);
                assert(!spec_xbe_loadable(bytes@));
            }
            return Err(ParseError::Oversize(path_pos));
        }
        proof {
            crate::coff::lemma_cstr_end(bytes@, path_pos as int);
            let e = crate::coff::spec_cstr_end(bytes@, path_pos as int)->Some_0;
            assert(debug_pathname@.push(0u8) =~= bytes@.subrange(path_pos as int, e + 1));
        }
        debug_pathname.push(0u8);
        if image_header.debug_filename_address < base {
            proof {
                assert(!spec_xbe_loadable(bytes@));
            }
            return Err(ParseError::FieldRange(0x150));
        }
        let fn_pos = (image_header.debug_filename_address - base) as usize;
        let mut debug_filename = match read_cstr(bytes, fn_pos) {
            Ok(v) => v,
            Err(e) => {
                proof {
                    assert(!spec_xbe_loadable(bytes@));
                }
                return Err(e);
            },
        };
        proof {
            crate::coff::lemma_cstr_end(bytes@, fn_pos as int);
            let e = crate::coff::spec_cstr_end(bytes@, fn_pos as int)->Some_0;
            assert(debug_filename@.push(0u8) =~= bytes@.subrange(fn_pos as int, e + 1));
        }
        debug_filename.push(0u8);

        // Sections
        let mut sections: Vec<Section> = Vec::new();
        let mut total: u64 = 0;
        let mut k: usize = 0;
        while k < n_sections
            invariant
                n_sections == section_headers@.len(),
                sections@.len() == k,
                k <= n_sections,
                blen == bytes@.len(),
                total == spec_sections_blob(sections@).len(),
                total <= 0x4000_0000,
                shdr_off == image_header.section_headers_address - base,
                base == spec_u32_from_le_bytes(bytes@.subrange(260, 264)),
                image_header.section_headers_address == spec_u32_from_le_bytes(
                    bytes@.subrange(288, 292),
                ),
                n_sections as int == spec_u32_from_le_bytes(bytes@.subrange(284, 288)) as int,
                forall|j: int|
                    0 <= j < n_sections ==> {
                        let h = #[trigger] section_headers@[j];
                        let off = shdr_off + SECTION_HEADER_SIZE * j;
                        &&& h.raw_address == spec_u32_from_le_bytes(
                            bytes@.subrange(off + 12, off + 16),
                        )
                        &&& h.raw_size == spec_u32_from_le_bytes(
                            bytes@.subrange(off + 16, off + 20),
                        )
                    },
                spec_secs_loadable(bytes@, shdr_off as int, n_sections as int, 0, 0)
                    <==> spec_secs_loadable(
                    bytes@,
                    shdr_off as int,
                    n_sections as int,
                    k as int,
                    total as int,
                ),
                forall|j: int| 0 <= j < k ==> (#[trigger] section_headers@[j]).raw_size
                    == sections@[j].bytes@.len(),
                forall|j: int| 0 <= j < k ==> (#[trigger] sections@[j]).bytes@
                    == bytes@.subrange(
                    section_headers@[j].raw_address as int,
                    section_headers@[j].raw_address + section_headers@[j].raw_size,
                ),
                forall|j: int| 0 <= j < k - 1 ==> (#[trigger] section_headers@[j]).raw_address
                    <= section_headers@[j + 1].raw_address,
            decreases n_sections - k,
        {
            let hdr_raw_size = section_headers[k].raw_size;
            let sec = match Section::load(
                bytes,
                section_headers[k].raw_address as usize,
                hdr_raw_size as usize,
            ) {
                Ok(sc) => sc,
                Err(e) => {
                    proof {
                        assert(!spec_secs_loadable(
                            bytes@,
                            shdr_off as int,
                            n_sections as int,
                            k as int,
                            total as int,
                        ));
                    }
                    return Err(e);
                },
            };
            if k > 0 && section_headers[k - 1].raw_address > section_headers[k].raw_address {
                proof {
                    assert(!spec_secs_loadable(
                        bytes@,
                        shdr_off as int,
                        n_sections as int,
                        k as int,
                        total as int,
                    ));
                }
                return Err(ParseError::SectionLayout(section_headers[k].raw_address));
            }
            proof {
                crate::bytesutil::lemma_round_up(total + hdr_raw_size as int, 0x1000);
            }
            let new_total_unpadded: u64 = total + hdr_raw_size as u64;
            if new_total_unpadded > 0x4000_0000 - 0x1000 {
                proof {
                    assert(!spec_secs_loadable(
                        bytes@,
                        shdr_off as int,
                        n_sections as int,
                        k as int,
                        total as int,
                    ));
                }
                return Err(ParseError::Oversize(k));
            }
            let rem: u64 = new_total_unpadded % 0x1000;
            let new_total: u64 = if rem == 0 {
                new_total_unpadded
            } else {
                proof {
                    assert(0 < rem < 0x1000) by (nonlinear_arith)
                        requires
                            rem == (new_total_unpadded as int) % 0x1000,
                            rem != 0,
                    ;
                    assert((((0x1000 - rem) as int)) % 0x1000 == (0x1000 - rem) as int)
                        by (nonlinear_arith)
                        requires
                            0 < ((0x1000 - rem) as int),
                            ((0x1000 - rem) as int) < 0x1000,
                    ;
                }
                new_total_unpadded + (0x1000 - rem)
            };
            let ghost prev = sections@;
            sections.push(sec);
            k = k + 1;
            proof {
                assert(sections@.drop_last() =~= prev);
                assert(new_total == crate::bytesutil::round_up(total + hdr_raw_size as int, 0x1000));
                assert(spec_secs_loadable(
                    bytes@,
                    shdr_off as int,
                    n_sections as int,
                    k - 1,
                    total as int,
                ) <==> spec_secs_loadable(
                    bytes@,
                    shdr_off as int,
                    n_sections as int,
                    k as int,
                    new_total as int,
                ));
            }
            total = new_total;
        }

        // Library versions
        if image_header.number_of_library_versions > 0x1000 {
            proof {
                assert(!spec_xbe_loadable(bytes@));
            }
            return Err(ParseError::Oversize(0x158));
        }
        if image_header.library_versions_address < base || image_header.library_versions_address
            - base > 0x0800_0000 {
            proof {
                assert(!spec_xbe_loadable(bytes@));
            }
            return Err(ParseError::FieldRange(0x15C));
        }
        let library_versions = match load_library_versions(
            bytes,
            (image_header.library_versions_address - base) as usize,
            image_header.number_of_library_versions as usize,
        ) {
            Ok(ls) => ls,
            Err(e) => {
                proof {
                    assert(!spec_xbe_loadable(bytes@));
                }
                return Err(e);
            },
        };

        let x = Xbe {
            image_header,
            certificate,
            section_headers,
            section_names,
            library_versions,
            debug_pathname,
            debug_filename,
            debug_unicode_filename,
            logo_bitmap,
            sections,
        };
        proof {
            assert(x.wf());
            lemma_fixed_prefix_magic(x.image_header);
            assert(bytes@.subrange(0, 4) =~= x.image_header.spec_fixed_bytes().subrange(0, 4));
            assert(spec_xbe_loadable(bytes@));
        }
        Ok(x)
    }
}

} // verus!
