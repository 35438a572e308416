//! A 32-bit COFF object file: the parsed model (sections with their raw
//! data and relocation records, primary symbols with resolved names) and
//! the byte-level reader that builds it.

use vstd::prelude::*;

verus! {

use crate::bytesutil::{copy_range, read_u16_at, read_u32_at};
use vstd::bytes::{spec_u16_from_le_bytes, spec_u32_from_le_bytes};
use crate::error::ParseError;

/// COFF storage class: an externally visible symbol.
pub const IMAGE_SYM_CLASS_EXTERNAL: u8 = 2;

/// COFF storage class: a symbol private to its object file.
pub const IMAGE_SYM_CLASS_STATIC: u8 = 3;

/// COFF storage class: a source-file name record.
pub const IMAGE_SYM_CLASS_FILE: u8 = 103;

/// x86 relocation: 32-bit absolute address.
pub const IMAGE_REL_I386_DIR32: u16 = 6;

/// x86 relocation: 32-bit address relative to the next instruction.
pub const IMAGE_REL_I386_REL32: u16 = 20;

/// Section number marking an undefined external symbol.
pub const SECTION_NUMBER_UNDEFINED: u16 = 0;

/// Section number marking an absolute symbol (`-1` as a 16-bit word).
pub const SECTION_NUMBER_ABSOLUTE: u16 = 0xFFFF;

/// Section number marking a debug symbol (`-2` as a 16-bit word).
pub const SECTION_NUMBER_DEBUG: u16 = 0xFFFE;

/// One relocation record of a COFF section.
#[derive(Debug, Clone)]
pub struct CoffRelocation {
    /// Section-relative offset of the 32-bit field to fix up.
    pub virtual_address: u32,
    /// Raw index of the target symbol in the symbol table (counting
    /// auxiliary records).
    pub symbol_table_index: u32,
    /// Relocation type.
    pub typ: u16,
}

/// One section of a COFF object, together with its raw data and its
/// relocation records.
#[derive(Debug, Clone)]
pub struct CoffSection {
    /// The raw 8-byte section name, NUL-padded.
    pub name: Vec<u8>,
    /// Declared size of the raw data.
    pub size_of_raw_data: u32,
    /// File offset of the raw data.
    pub pointer_to_raw_data: u32,
    /// The raw data itself, `size_of_raw_data` bytes.
    pub data: Vec<u8>,
    /// The section's relocation records.
    pub relocations: Vec<CoffRelocation>,
}

impl CoffSection {
    /// Structural soundness of one parsed section.
    pub open spec fn wf(self) -> bool {
        &&& self.name@.len() == 8
        &&& self.data@.len() == self.size_of_raw_data as int
    }
}

/// One primary symbol of a COFF object, with its name resolved against the
/// string table.
#[derive(Debug, Clone)]
pub struct CoffSymbol {
    /// Raw index in the symbol table (counting auxiliary records); this is
    /// what relocation records refer to.
    pub index: u32,
    /// The resolved name, without a NUL terminator.
    pub name: Vec<u8>,
    /// The symbol's value; for a defined symbol, its offset within its
    /// section.
    pub value: u32,
    /// One-based defining section number, or one of the
    /// `SECTION_NUMBER_...` markers.
    pub section_number: u16,
    /// The symbol's type; `0x20` marks a function.
    pub typ: u16,
    /// Storage class, one of the `IMAGE_SYM_CLASS_...` values.
    pub storage_class: u8,
    /// How many auxiliary records follow this one.
    pub number_of_aux_symbols: u8,
}

impl CoffSymbol {
    /// True when the symbol claims an ordinary (one-based) defining section.
    pub open spec fn has_ordinary_section(self) -> bool {
        1 <= self.section_number < SECTION_NUMBER_DEBUG
    }

    /// A defined symbol's section number stays within the section table.
    pub open spec fn wf_in(self, num_sections: int) -> bool {
        self.has_ordinary_section() ==> self.section_number as int <= num_sections
    }
}

/// The parsed view of a COFF object.
#[derive(Debug, Clone)]
pub struct Coff {
    /// The section table, in file order.
    pub sections: Vec<CoffSection>,
    /// The primary symbols, in table order (auxiliary records skipped).
    pub symbols: Vec<CoffSymbol>,
}

impl Coff {
    /// Structural soundness of the parsed object: sections carry their
    /// declared bytes and every defined symbol names an existing section.
    pub open spec fn wf(self) -> bool {
        &&& self.sections@.len() <= 0xFFFF
        &&& forall|i: int| 0 <= i < self.sections@.len() ==> (#[trigger] self.sections@[i]).wf()
        &&& forall|i: int|
            0 <= i < self.symbols@.len() ==> (#[trigger] self.symbols@[i]).wf_in(
                self.sections@.len() as int,
            )
    }
}

/// A COFF object file: its name, its backing bytes, and the parsed view.
#[derive(Debug, Clone)]
pub struct ObjectFile {
    /// The name the object is referred to by (its path in the original
    /// configuration).
    pub filename: String,
    /// The object's bytes.
    pub bytes: Vec<u8>,
    /// The parsed view of those bytes.
    pub coff: Coff,
}

impl ObjectFile {
    /// Structural soundness of the parsed view.
    pub open spec fn wf(self) -> bool {
        self.coff.wf()
    }

    /// Parses `bytes` as a 32-bit COFF object.
    ///
    /// On success the returned object is structurally sound, keeps the
    /// given name and bytes, and its parsed view decodes exactly those
    /// bytes: sections, raw data, relocations and symbols all come from
    /// their encoded records.
    pub fn new(filename: String, bytes: Vec<u8>) -> (r: Result<ObjectFile, ParseError>)
        ensures
            r is Ok <==> spec_coff_parseable(bytes@),
            match r {
                Ok(o) => o.wf() && o.filename@ == filename@ && o.bytes@ == bytes@
                    && spec_coff_decoded(o.coff, bytes@),
                Err(_) => true,
            },
    {
        let coff = parse_coff(bytes.as_slice())?;
        Ok(ObjectFile { filename, bytes, coff })
    }
}

/// First index at or after `start` holding a zero byte, if any.
pub open spec fn spec_cstr_end(b: Seq<u8>, start: int) -> Option<int>
    decreases b.len() - start,
{
    if start < 0 || start >= b.len() {
        None
    } else if b[start] == 0 {
        Some(start)
    } else {
        spec_cstr_end(b, start + 1)
    }
}

/// Reads the NUL-terminated byte string starting at `pos`, without its
/// terminator.
pub fn read_cstr(bytes: &[u8], pos: usize) -> (r: Result<Vec<u8>, ParseError>)
    ensures
        match r {
            Ok(v) => {
                &&& spec_cstr_end(bytes@, pos as int) is Some
                &&& v@ == bytes@.subrange(pos as int, spec_cstr_end(bytes@, pos as int)->Some_0)
            },
            Err(_) => spec_cstr_end(bytes@, pos as int) is None,
        },
{
    let n = bytes.len();
    if pos >= n {
        return Err(ParseError::UnterminatedString(pos));
    }
    let mut out: Vec<u8> = Vec::new();
    let mut i: usize = pos;
    while i < n
        invariant
            pos <= i <= n,
            n == bytes@.len(),
            out@ == bytes@.subrange(pos as int, i as int),
            forall|j: int| pos <= j < i ==> bytes@[j] != 0,
            spec_cstr_end(bytes@, pos as int) == spec_cstr_end(bytes@, i as int),
        decreases n - i,
    {
        let c = bytes[i];
        if c == 0 {
            return Ok(out);
        }
        out.push(c);
        i = i + 1;
        proof {
            assert(out@ =~= bytes@.subrange(pos as int, i as int));
        }
    }
    Err(ParseError::UnterminatedString(pos))
}


/// A found string terminator lies in range and is the zero byte.
pub proof fn lemma_cstr_end(b: Seq<u8>, start: int)
    requires
        spec_cstr_end(b, start) is Some,
    ensures
        ({
            let e = spec_cstr_end(b, start)->Some_0;
            &&& start <= e < b.len()
            &&& b[e] == 0
        }),
    decreases b.len() - start,
{
    if 0 <= start < b.len() && b[start] != 0 {
        lemma_cstr_end(b, start + 1);
    }
}

/// The inline portion of an 8-byte symbol or section name: the bytes up to
/// the first NUL.
pub open spec fn spec_trim_nul(s: Seq<u8>) -> Seq<u8> {
    match spec_cstr_end(s, 0) {
        Some(e) => s.take(e),
        None => s,
    }
}

/// Copies `name8` up to its first NUL byte.
pub fn trim_nul(name8: &[u8]) -> (r: Vec<u8>)
    ensures
        r@ == spec_trim_nul(name8@),
{
    let n = name8.len();
    let mut out: Vec<u8> = Vec::new();
    let mut i: usize = 0;
    while i < n
        invariant
            i <= n,
            n == name8@.len(),
            out@ == name8@.subrange(0, i as int),
            forall|j: int| 0 <= j < i ==> name8@[j] != 0,
            spec_cstr_end(name8@, 0) == spec_cstr_end(name8@, i as int),
        decreases n - i,
    {
        let c = name8[i];
        if c == 0 {
            proof {
                assert(name8@.take(i as int) =~= name8@.subrange(0, i as int));
            }
            return out;
        }
        out.push(c);
        i = i + 1;
        proof {
            assert(out@ =~= name8@.subrange(0, i as int));
        }
    }
    proof {
        assert(name8@.subrange(0, n as int) =~= name8@);
    }
    out
}


/// One relocation record as decoded from its 10 bytes at `off`.
pub open spec fn spec_reloc_decoded(b: Seq<u8>, off: int, r: CoffRelocation) -> bool {
    &&& r.virtual_address == spec_u32_from_le_bytes(b.subrange(off, off + 4))
    &&& r.symbol_table_index == spec_u32_from_le_bytes(b.subrange(off + 4, off + 8))
    &&& r.typ == spec_u16_from_le_bytes(b.subrange(off + 8, off + 10))
}

/// A section's relocation list: the `count` records at `base` when the
/// table lies inside the file, empty otherwise.
pub open spec fn spec_relocs_decoded(
    b: Seq<u8>,
    base: int,
    count: int,
    rs: Seq<CoffRelocation>,
) -> bool {
    if 1 <= count <= 0xFFFF && base + count * 10 <= b.len() {
        &&& rs.len() == count
        &&& forall|k: int| 0 <= k < count ==> spec_reloc_decoded(b, base + 10 * k, #[trigger] rs[k])
    } else {
        rs.len() == 0
    }
}

/// One section as decoded from its 40-byte header at `off`: raw name,
/// sizes and pointers from their fields, the data copied from the pointed
/// range, the relocations from their table.
pub open spec fn spec_section_decoded(b: Seq<u8>, off: int, s: CoffSection) -> bool {
    &&& s.name@ == b.subrange(off, off + 8)
    &&& s.size_of_raw_data == spec_u32_from_le_bytes(b.subrange(off + 16, off + 20))
    &&& s.pointer_to_raw_data == spec_u32_from_le_bytes(b.subrange(off + 20, off + 24))
    &&& s.data@ == (if s.size_of_raw_data == 0 {
        Seq::<u8>::empty()
    } else {
        b.subrange(
            s.pointer_to_raw_data as int,
            s.pointer_to_raw_data + s.size_of_raw_data,
        )
    })
    &&& spec_relocs_decoded(
        b,
        spec_u32_from_le_bytes(b.subrange(off + 24, off + 28)) as int,
        spec_u16_from_le_bytes(b.subrange(off + 32, off + 34)) as int,
        s.relocations@,
    )
}

/// One primary symbol as decoded from its 18-byte record: every field
/// from its bytes, the name either inline (NUL-trimmed) or read from the
/// string table at the recorded offset.
pub open spec fn spec_symbol_decoded(b: Seq<u8>, sym_ptr: int, strtab: int, sym: CoffSymbol) -> bool {
    let off = sym_ptr + 18 * sym.index;
    &&& sym.value == spec_u32_from_le_bytes(b.subrange(off + 8, off + 12))
    &&& sym.section_number == spec_u16_from_le_bytes(b.subrange(off + 12, off + 14))
    &&& sym.typ == spec_u16_from_le_bytes(b.subrange(off + 14, off + 16))
    &&& sym.storage_class == b[off + 16]
    &&& sym.number_of_aux_symbols == b[off + 17]
    &&& if b[off] == 0 && b[off + 1] == 0 && b[off + 2] == 0 && b[off + 3] == 0 {
        let pos = strtab + spec_u32_from_le_bytes(b.subrange(off + 4, off + 8));
        &&& spec_cstr_end(b, pos) is Some
        &&& sym.name@ == b.subrange(pos, spec_cstr_end(b, pos)->Some_0)
    } else {
        sym.name@ == spec_trim_nul(b.subrange(off, off + 8))
    }
}

/// The whole parsed view as decoded from the bytes: the section table at
/// its place, and the primary symbols walked from record 0, each skipping
/// its auxiliary records, until the table is exhausted.
pub open spec fn spec_coff_decoded(c: Coff, b: Seq<u8>) -> bool {
    let num_sections = spec_u16_from_le_bytes(b.subrange(2, 4)) as int;
    let sym_ptr = spec_u32_from_le_bytes(b.subrange(8, 12)) as int;
    let num_symbols = spec_u32_from_le_bytes(b.subrange(12, 16)) as int;
    let sec_base = 20 + spec_u16_from_le_bytes(b.subrange(16, 18)) as int;
    let strtab = sym_ptr + 18 * num_symbols;
    &&& b.len() >= 20
    &&& c.sections@.len() == num_sections
    &&& forall|i: int|
        0 <= i < num_sections ==> spec_section_decoded(
            b,
            sec_base + 40 * i,
            #[trigger] c.sections@[i],
        )
    &&& (c.symbols@.len() > 0 <==> num_symbols > 0)
    &&& forall|k: int|
        0 <= k < c.symbols@.len() ==> spec_symbol_decoded(
            b,
            sym_ptr,
            strtab,
            #[trigger] c.symbols@[k],
        )
    &&& forall|k: int| 0 <= k < c.symbols@.len() ==> (#[trigger] c.symbols@[k]).index
        < num_symbols
    &&& c.symbols@.len() > 0 ==> c.symbols@[0].index == 0
    &&& forall|k: int|
        0 <= k < c.symbols@.len() - 1 ==> (#[trigger] c.symbols@[k + 1]).index
            == c.symbols@[k].index + 1 + c.symbols@[k].number_of_aux_symbols
    &&& c.symbols@.len() > 0 ==> c.symbols@.last().index + 1
        + c.symbols@.last().number_of_aux_symbols >= num_symbols
}


/// Whether the symbol records, walked from index `k` with each record
/// skipping its auxiliary entries, all parse: resolvable names and
/// section numbers within the table.
pub open spec fn spec_symbols_parseable(
    b: Seq<u8>,
    sym_ptr: int,
    strtab: int,
    nsec: int,
    nsym: int,
    k: int,
) -> bool
    decreases nsym - k,
{
    if k < 0 || k >= nsym {
        true
    } else {
        let off = sym_ptr + 18 * k;
        let ok_name = if b[off] == 0 && b[off + 1] == 0 && b[off + 2] == 0 && b[off + 3] == 0 {
            let so = spec_u32_from_le_bytes(b.subrange(off + 4, off + 8));
            &&& strtab + so <= usize::MAX
            &&& spec_cstr_end(b, strtab + so) is Some
        } else {
            true
        };
        let sn = spec_u16_from_le_bytes(b.subrange(off + 12, off + 14));
        let ok_sn = (1 <= sn < SECTION_NUMBER_DEBUG) ==> sn <= nsec;
        let naux = b[off + 17] as int;
        let nk = if k + 1 + naux > nsym {
            nsym
        } else {
            k + 1 + naux
        };
        &&& ok_name
        &&& ok_sn
        &&& spec_symbols_parseable(b, sym_ptr, strtab, nsec, nsym, nk)
    }
}

/// Whether the section records from index `i` on all carry their
/// declared raw data inside the bytes.
pub open spec fn spec_sections_parseable(b: Seq<u8>, sec_base: int, nsec: int, i: int) -> bool
    decreases nsec - i,
{
    if i < 0 || i >= nsec {
        true
    } else {
        let off = sec_base + 40 * i;
        let size = spec_u32_from_le_bytes(b.subrange(off + 16, off + 20));
        let ptr = spec_u32_from_le_bytes(b.subrange(off + 20, off + 24));
        &&& (size != 0 ==> ptr + size <= b.len())
        &&& spec_sections_parseable(b, sec_base, nsec, i + 1)
    }
}

/// Whether a byte string parses as a COFF object: the header, section
/// table, every non-empty section's data range, the symbol table and
/// every walked symbol record lie within the bytes.
pub open spec fn spec_coff_parseable(b: Seq<u8>) -> bool {
    &&& b.len() >= 20
    &&& {
        let nsec = spec_u16_from_le_bytes(b.subrange(2, 4)) as int;
        let sym_ptr = spec_u32_from_le_bytes(b.subrange(8, 12)) as int;
        let nsym = spec_u32_from_le_bytes(b.subrange(12, 16)) as int;
        let sec_base = 20 + spec_u16_from_le_bytes(b.subrange(16int, 18)) as int;
        &&& sec_base + nsec * 40 <= b.len()
        &&& spec_sections_parseable(b, sec_base, nsec, 0)
        &&& nsym > 0 ==> {
            &&& sym_ptr + 18 * nsym <= b.len()
            &&& spec_symbols_parseable(b, sym_ptr, sym_ptr + 18 * nsym, nsec, nsym, 0)
        }
    }
}

/// Parses the 20-byte file header, the section table (with raw data and
/// relocations), and the symbol table of a 32-bit COFF object.
///
/// Relocation tables that lie outside the file are treated as empty; a raw
/// data range or symbol record outside the file is an error.
pub fn parse_coff(bytes: &[u8]) -> (r: Result<Coff, ParseError>)
    ensures
        r is Ok <==> spec_coff_parseable(bytes@),
        match r {
            Ok(c) => c.wf() && spec_coff_decoded(c, bytes@),
            Err(_) => true,
        },
{
    let blen = bytes.len();
    if blen < 20 {
        return Err(ParseError::Truncated(0));
    }
    let num_sections = read_u16_at(bytes, 2) as usize;
    let sym_ptr = read_u32_at(bytes, 8) as usize;
    let num_symbols = read_u32_at(bytes, 12) as usize;
    let opt_size = read_u16_at(bytes, 16) as usize;

    let sec_base: usize = 20 + opt_size;
    if num_sections > 0xFFFF {
        return Err(ParseError::Oversize(2));
    }
    let sec_table_len: usize = num_sections * 40;
    if sec_base > blen || sec_table_len > blen - sec_base {
        return Err(ParseError::Truncated(sec_base));
    }

    let mut sections: Vec<CoffSection> = Vec::new();
    let mut i: usize = 0;
    while i < num_sections
        invariant
            i <= num_sections,
            num_sections <= 0xFFFF,
            sec_base >= 20,
            blen >= 20,
            sec_base == 20 + spec_u16_from_le_bytes(bytes@.subrange(16int, 18)) as int,
            num_sections as int == spec_u16_from_le_bytes(bytes@.subrange(2int, 4)) as int,
            sec_base + num_sections * 40 <= blen,
            blen == bytes@.len(),
            sections@.len() == i as int,
            forall|j: int| 0 <= j < i ==> (#[trigger] sections@[j]).wf(),
            forall|j: int|
                0 <= j < i ==> spec_section_decoded(
                    bytes@,
                    sec_base + 40 * j,
                    #[trigger] sections@[j],
                ),
            spec_sections_parseable(bytes@, sec_base as int, num_sections as int, 0)
                <==> spec_sections_parseable(
                bytes@,
                sec_base as int,
                num_sections as int,
                i as int,
            ),
        decreases num_sections - i,
    {
        let off = sec_base + i * 40;
        let name = copy_range(bytes, off, off + 8);
        let size_of_raw_data = read_u32_at(bytes, off + 16);
        let pointer_to_raw_data = read_u32_at(bytes, off + 20);
        let pointer_to_relocations = read_u32_at(bytes, off + 24);
        let number_of_relocations = read_u16_at(bytes, off + 32) as usize;

        let data: Vec<u8> = if size_of_raw_data == 0 {
            Vec::new()
        } else {
            let start = pointer_to_raw_data as usize;
            let size = size_of_raw_data as usize;
            if start > blen || size > blen - start {
                proof {
                    assert(!spec_sections_parseable(
                        bytes@,
                        sec_base as int,
                        num_sections as int,
                        i as int,
                    ));
                    assert(!spec_coff_parseable(bytes@));
                }
                return Err(ParseError::FieldRange(off + 20));
            }
            copy_range(bytes, start, start + size)
        };

        let relocations = parse_relocations(
            bytes,
            pointer_to_relocations as usize,
            number_of_relocations,
        );

        sections.push(
            CoffSection {
                name,
                size_of_raw_data,
                pointer_to_raw_data,
                data,
                relocations,
            },
        );
        proof {
            assert(spec_sections_parseable(
                bytes@,
                sec_base as int,
                num_sections as int,
                i as int,
            ) <==> spec_sections_parseable(
                bytes@,
                sec_base as int,
                num_sections as int,
                i + 1,
            ));
        }
        i = i + 1;
    }

    let mut symbols: Vec<CoffSymbol> = Vec::new();
    if num_symbols > 0 {
        if sym_ptr > blen || num_symbols > (blen - sym_ptr) / 18 {
            return Err(ParseError::Truncated(sym_ptr));
        }
        let sym_table_len: usize = num_symbols * 18;
        let strtab_off: usize = sym_ptr + sym_table_len;
        let mut k: usize = 0;
        while k < num_symbols
            invariant
                num_symbols * 18 <= blen - sym_ptr,
                sym_ptr <= blen,
                blen >= 20,
                strtab_off == sym_ptr + num_symbols * 18,
                k <= num_symbols,
                0 < num_symbols <= u32::MAX,
                blen == bytes@.len(),
                num_sections == sections@.len(),
                num_sections <= 0xFFFF,
                num_sections as int == spec_u16_from_le_bytes(bytes@.subrange(2int, 4)) as int,
                sym_ptr as int == spec_u32_from_le_bytes(bytes@.subrange(8int, 12)) as int,
                num_symbols as int == spec_u32_from_le_bytes(
                    bytes@.subrange(12int, 16),
                ) as int,
                forall|j: int| 0 <= j < sections@.len() ==> (#[trigger] sections@[j]).wf(),
                forall|j: int|
                    0 <= j < symbols@.len() ==> (#[trigger] symbols@[j]).wf_in(
                        sections@.len() as int,
                    ),
                forall|j: int|
                    0 <= j < symbols@.len() ==> spec_symbol_decoded(
                        bytes@,
                        sym_ptr as int,
                        strtab_off as int,
                        #[trigger] symbols@[j],
                    ),
                forall|j: int| 0 <= j < symbols@.len() ==> (#[trigger] symbols@[j]).index
                    < num_symbols,
                symbols@.len() > 0 ==> symbols@[0].index == 0,
                forall|j: int|
                    0 <= j < symbols@.len() - 1 ==> (#[trigger] symbols@[j + 1]).index
                        == symbols@[j].index + 1 + symbols@[j].number_of_aux_symbols,
                symbols@.len() == 0 ==> k == 0,
                symbols@.len() > 0 ==> ({
                    let lastidx = symbols@.last().index + 1
                        + symbols@.last().number_of_aux_symbols as int;
                    if lastidx <= num_symbols {
                        k == lastidx
                    } else {
                        k == num_symbols
                    }
                }),
                spec_symbols_parseable(
                    bytes@,
                    sym_ptr as int,
                    strtab_off as int,
                    num_sections as int,
                    num_symbols as int,
                    0,
                ) <==> spec_symbols_parseable(
                    bytes@,
                    sym_ptr as int,
                    strtab_off as int,
                    num_sections as int,
                    num_symbols as int,
                    k as int,
                ),
            decreases num_symbols - k,
        {
            let off = sym_ptr + k * 18;
            let name8 = copy_range(bytes, off, off + 8);
            let value = read_u32_at(bytes, off + 8);
            let section_number = read_u16_at(bytes, off + 12);
            let typ = read_u16_at(bytes, off + 14);
            let storage_class = bytes[off + 16];
            let number_of_aux_symbols = bytes[off + 17];

            let name: Vec<u8> = if name8[0] == 0 && name8[1] == 0 && name8[2] == 0 && name8[3]
                == 0 {
                let str_off = read_u32_at(bytes, off + 4) as usize;
                if str_off > usize::MAX - strtab_off {
                    proof {
                        assert(!spec_symbols_parseable(
                            bytes@,
                            sym_ptr as int,
                            strtab_off as int,
                            num_sections as int,
                            num_symbols as int,
                            k as int,
                        ));
                    }
                    return Err(ParseError::FieldRange(off + 4));
                }
                match read_cstr(bytes, strtab_off + str_off) {
                    Ok(v) => v,
                    Err(e) => {
                        proof {
                            assert(!spec_symbols_parseable(
                                bytes@,
                                sym_ptr as int,
                                strtab_off as int,
                                num_sections as int,
                                num_symbols as int,
                                k as int,
                            ));
                        }
                        return Err(e);
                    },
                }
            } else {
                trim_nul(name8.as_slice())
            };

            if section_number >= 1 && section_number < SECTION_NUMBER_DEBUG {
                if section_number as usize > num_sections {
                    proof {
                        assert(!spec_symbols_parseable(
                            bytes@,
                            sym_ptr as int,
                            strtab_off as int,
                            num_sections as int,
                            num_symbols as int,
                            k as int,
                        ));
                    }
                    return Err(ParseError::SectionNumber(k as u32));
                }
            }

            let ghost prev_syms = symbols@;
            symbols.push(
                CoffSymbol {
                    index: k as u32,
                    name,
                    value,
                    section_number,
                    typ,
                    storage_class,
                    number_of_aux_symbols,
                },
            );
            proof {
                assert(symbols@.drop_last() =~= prev_syms);
                assert(symbols@.last() == CoffSymbol {
                    index: k as u32,
                    name: symbols@.last().name,
                    value,
                    section_number,
                    typ,
                    storage_class,
                    number_of_aux_symbols,
                });
            }
            proof {
                let kk = k as int;
                let naux = number_of_aux_symbols as int;
                let nk = if kk + 1 + naux > num_symbols as int {
                    num_symbols as int
                } else {
                    kk + 1 + naux
                };
                assert(spec_symbols_parseable(
                    bytes@,
                    sym_ptr as int,
                    strtab_off as int,
                    num_sections as int,
                    num_symbols as int,
                    kk,
                ) <==> spec_symbols_parseable(
                    bytes@,
                    sym_ptr as int,
                    strtab_off as int,
                    num_sections as int,
                    num_symbols as int,
                    nk,
                ));
            }
            let step: usize = 1 + number_of_aux_symbols as usize;
            if step > num_symbols - k {
                k = num_symbols;
            } else {
                k = k + step;
            }
        }
    }

    Ok(Coff { sections, symbols })
}

/// Parses `count` 10-byte relocation records at `base`; a table that does
/// not fit inside the file yields no records.
fn parse_relocations(bytes: &[u8], base: usize, count: usize) -> (r: Vec<CoffRelocation>)
    ensures
        spec_relocs_decoded(bytes@, base as int, count as int, r@),
        r@.len() <= count,
{
    let blen = bytes.len();
    let mut out: Vec<CoffRelocation> = Vec::new();
    if count == 0 || count > 0xFFFF {
        return out;
    }
    let table_len: usize = count * 10;
    if base > blen || table_len > blen - base {
        return out;
    }
    let mut i: usize = 0;
    while i < count
        invariant
            i <= count,
            1 <= count <= 0xFFFF,
            base + count * 10 <= blen,
            blen == bytes@.len(),
            out@.len() == i as int,
            forall|k: int|
                0 <= k < i ==> spec_reloc_decoded(bytes@, base + 10 * k, #[trigger] out@[k]),
        decreases count - i,
    {
        let off = base + i * 10;
        let virtual_address = read_u32_at(bytes, off);
        let symbol_table_index = read_u32_at(bytes, off + 4);
        let typ = read_u16_at(bytes, off + 8);
        out.push(CoffRelocation { virtual_address, symbol_table_index, typ });
        i = i + 1;
    }
    out
}

} // verus!
