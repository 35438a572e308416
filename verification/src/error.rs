//! Error types for the linker: image and object parsing, relocation
//! evaluation, and patch application.
//!
//! The variants are structured (offsets, names, addresses) rather than
//! formatted text; rendering them for people is left to the caller.

use vstd::prelude::*;

verus! {

/// A malformed XBE image or COFF object.
#[derive(Debug, Clone, PartialEq, Eq)]
pub enum ParseError {
    /// More bytes were needed at this offset.
    Truncated(usize),
    /// The image does not begin with the `XBEH` magic.
    BadMagic,
    /// A size or pointer field (at this offset) places a region out of bounds.
    FieldRange(usize),
    /// A NUL-terminated string starting at this offset runs off the end.
    UnterminatedString(usize),
    /// The symbol with this table index names a section that does not exist.
    SectionNumber(u32),
    /// The library-version list has no `XBOXKRNL` entry.
    MissingKernelLibrary,
    /// The library-version list has no `XAPILIB` entry.
    MissingXapiLibrary,
    /// The debug pathname contains no backslash.
    MalformedDebugPath,
    /// A section (identified by its virtual address) breaks the expected
    /// ordering or alignment of the section table.
    SectionLayout(u32),
    /// A length in the image exceeds what this linker supports.
    Oversize(usize),
}

/// A relocation that cannot be evaluated.
#[derive(Debug, Clone, PartialEq, Eq)]
pub enum RelocationError {
    /// The contributing file has no start offset in this output section.
    SectionOffset(String),
    /// No symbol exists at this symbol-table index.
    SymbolIndex(u32),
    /// The symbol with this name has no resolved virtual address.
    SymbolAddress(Vec<u8>),
    /// An unsupported relocation type, with the target symbol's name.
    Unsupported(u16, Vec<u8>),
    /// The relocation site (at this section-relative offset) lies outside
    /// the accumulated section bytes.
    OutOfBounds(u32),
}

/// A patch that cannot be applied.
#[derive(Debug, Clone, PartialEq, Eq)]
pub enum PatchError {
    /// The named symbol is not defined in the patch object.
    UndefinedSymbol(String),
    /// The start and end symbols live in different sections.
    SectionMismatch,
    /// The patch object has no builder for this section.
    MissingSection(Vec<u8>),
    /// No section of the base image covers the patch's byte range at this
    /// virtual address.
    InvalidAddress(u32),
}

/// Any failure surfaced by the linking engine.
#[derive(Debug, Clone, PartialEq, Eq)]
pub enum Error {
    /// A malformed XBE image.
    Parse(ParseError),
    /// A malformed object file, with its name.
    Object(String, ParseError),
    /// A relocation failure, with the name of the file it occurred in.
    Relocation(String, RelocationError),
    /// A patch failure, with the patch's start-symbol name.
    Patch(String, PatchError),
    /// A symbol storage class outside the accepted set, with the file name.
    UnsupportedStorageClass(String, u8),
    /// An input or the combined output exceeds what 32-bit addressing
    /// supports.
    TooLarge,
}

} // verus!
