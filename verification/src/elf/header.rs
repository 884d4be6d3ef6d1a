//! The ELF file header and its identification bytes.

use vstd::prelude::*;
use crate::bytes::{le_at, read_le_u16, read_le_u32, read_le_u64};
use crate::error::{OsoLoaderError, Rslt};
use crate::text::{decimal, message_with_number, push_decimal};
use vstd::string::StringExecFns;
use vstd::slice::slice_subrange;

verus! {

/// Size of the identification block at the start of the file.
pub const ELF_IDENT_SIZE: usize = 16;
/// Size of an ELF64 file header.
pub const ELF_HEADER_SIZE_64: usize = 64;
/// Index of the file class byte in the identification block.
pub const ELF_FILE_CLASS_INDEX: usize = 4;
/// Identification value of a 32 bit object.
pub const ELF_32_BIT_OBJECT: u8 = 1;
/// Identification value of a 64 bit object.
pub const ELF_64_BIT_OBJECT: u8 = 2;
/// Index of the data encoding (endianness) byte.
pub const ELF_ENDIANNESS_INDEX: usize = 5;
/// Index of the ELF version byte.
pub const ELF_VERSION_INDEX: usize = 6;
/// Index of the target OS ABI byte.
pub const ELF_OS_ABI_INDEX: usize = 7;
/// Index of the ABI version byte.
pub const ELF_ABI_VERSION_INDEX: usize = 8;

/// The object file type.
#[derive(PartialEq, Eq, Structural, Clone, Copy, Debug)]
pub enum ElfType {
    NoneType,
    Relocatable,
    Executable,
    SharedObject,
    Core,
    NumberOfDefined,
    OsSpecificRangeStart,
    OsSpecificRangeEnd,
    ProcessorSpecificRangeStart,
    ProcessorSpecificRangeEnd,
}

/// The type a raw `e_type` value decodes to. Both `0xfeff` and `0xffff`
/// decode to `OsSpecificRangeEnd`.
pub open spec fn spec_elf_type(value: u16) -> Option<ElfType> {
    if value == 0 {
        Some(ElfType::NoneType)
    } else if value == 1 {
        Some(ElfType::Relocatable)
    } else if value == 2 {
        Some(ElfType::Executable)
    } else if value == 3 {
        Some(ElfType::SharedObject)
    } else if value == 4 {
        Some(ElfType::Core)
    } else if value == 5 {
        Some(ElfType::NumberOfDefined)
    } else if value == 0xfe00 {
        Some(ElfType::OsSpecificRangeStart)
    } else if value == 0xfeff {
        Some(ElfType::OsSpecificRangeEnd)
    } else if value == 0xff00 {
        Some(ElfType::ProcessorSpecificRangeStart)
    } else if value == 0xffff {
        Some(ElfType::OsSpecificRangeEnd)
    } else {
        None
    }
}

impl ElfType {
    /// Whether the object is a shared object (a library).
    pub fn is_lib(&self) -> (b: bool)
        ensures
            b == (*self == ElfType::SharedObject),
    {
        *self == ElfType::SharedObject
    }

    /// Decodes a raw `e_type` value.
    pub fn try_from(value: u16) -> (r: Rslt<ElfType>)
        ensures
            spec_elf_type(value) matches Some(t) ==> r == Ok::<ElfType, OsoLoaderError>(t),
            spec_elf_type(value) is None ==> (r matches Err(OsoLoaderError::EfiParse(m)) && m@ == elf_type_error(value)),
    {
        if value == 0 {
            Ok(ElfType::NoneType)
        } else if value == 1 {
            Ok(ElfType::Relocatable)
        } else if value == 2 {
            Ok(ElfType::Executable)
        } else if value == 3 {
            Ok(ElfType::SharedObject)
        } else if value == 4 {
            Ok(ElfType::Core)
        } else if value == 5 {
            Ok(ElfType::NumberOfDefined)
        } else if value == 0xfe00 {
            Ok(ElfType::OsSpecificRangeStart)
        } else if value == 0xfeff {
            Ok(ElfType::OsSpecificRangeEnd)
        } else if value == 0xff00 {
            Ok(ElfType::ProcessorSpecificRangeStart)
        } else if value == 0xffff {
            Ok(ElfType::OsSpecificRangeEnd)
        } else {
            Err(OsoLoaderError::EfiParse(message_with_number("unknown type: ", value as u64)))
        }
    }
}

/// Width of the object's addresses.
#[derive(PartialEq, Eq, Structural, Clone, Copy, Debug)]
pub enum FileClass {
    Bit32,
    Bit64,
}

pub open spec fn spec_file_class(value: u8) -> Option<FileClass> {
    if value == ELF_32_BIT_OBJECT {
        Some(FileClass::Bit32)
    } else if value == ELF_64_BIT_OBJECT {
        Some(FileClass::Bit64)
    } else {
        None
    }
}

impl FileClass {
    pub fn is_64(&self) -> (b: bool)
        ensures
            b == (*self == FileClass::Bit64),
    {
        *self == FileClass::Bit64
    }

    /// Decodes the file class byte.
    pub fn try_from(value: u8) -> (r: Rslt<FileClass>)
        ensures
            spec_file_class(value) matches Some(c) ==> r == Ok::<FileClass, OsoLoaderError>(c),
            spec_file_class(value) is None ==> (r matches Err(OsoLoaderError::EfiParse(m)) && m@ == file_class_error(value)),
    {
        if value == ELF_32_BIT_OBJECT {
            Ok(FileClass::Bit32)
        } else if value == ELF_64_BIT_OBJECT {
            Ok(FileClass::Bit64)
        } else {
            Err(OsoLoaderError::EfiParse(message_with_number("invalid file class: ", value as u64)))
        }
    }
}

/// Byte order of the object's data.
#[derive(PartialEq, Eq, Structural, Clone, Copy, Debug)]
pub enum Endian {
    Little,
    Big,
}

pub open spec fn spec_endian(value: u8) -> Option<Endian> {
    if value == 1 {
        Some(Endian::Little)
    } else if value == 2 {
        Some(Endian::Big)
    } else {
        None
    }
}

impl Endian {
    /// The byte order assumed when none is given: big.
    pub fn default() -> (e: Endian)
        ensures
            e == Endian::Big,
    {
        Endian::Big
    }

    pub fn is_little_endian(&self) -> (b: bool)
        ensures
            b == (*self == Endian::Little),
    {
        *self == Endian::Little
    }

    /// Decodes the data encoding byte.
    pub fn try_from(value: u8) -> (r: Rslt<Endian>)
        ensures
            spec_endian(value) matches Some(e) ==> r == Ok::<Endian, OsoLoaderError>(e),
            spec_endian(value) is None ==> (r matches Err(OsoLoaderError::EfiParse(m)) && m@ == endian_error(value)),
    {
        if value == 1 {
            Ok(Endian::Little)
        } else if value == 2 {
            Ok(Endian::Big)
        } else {
            Err(
                OsoLoaderError::EfiParse(
                    message_with_number("invalid endianness flag value: ", value as u64),
                ),
            )
        }
    }
}

/// The ELF version byte of the identification block.
#[derive(PartialEq, Eq, Structural, Clone, Copy, Debug)]
pub struct ElfVersion(pub u8);

impl ElfVersion {
    /// The current ELF version.
    pub fn one() -> (v: ElfVersion)
        ensures
            v == ElfVersion(1),
    {
        ElfVersion(1)
    }
}

/// The operating system ABI the object targets.
#[derive(PartialEq, Eq, Structural, Clone, Copy, Debug)]
#[non_exhaustive]
pub enum TargetOsAbi {
    SysV,
    Arm,
    Standalone,
}

pub open spec fn spec_os_abi(value: u8) -> Option<TargetOsAbi> {
    if value == 0 {
        Some(TargetOsAbi::SysV)
    } else if value == 0x53 {
        Some(TargetOsAbi::Arm)
    } else if value == 0x61 {
        Some(TargetOsAbi::Standalone)
    } else {
        None
    }
}

impl TargetOsAbi {
    /// Decodes the OS ABI byte; only System V, ARM and standalone are supported.
    pub fn try_from(value: u8) -> (r: Rslt<TargetOsAbi>)
        ensures
            spec_os_abi(value) matches Some(a) ==> r == Ok::<TargetOsAbi, OsoLoaderError>(a),
            spec_os_abi(value) is None ==> (r matches Err(OsoLoaderError::EfiParse(m)) && m@ == os_abi_error(value)),
    {
        if value == 0 {
            Ok(TargetOsAbi::SysV)
        } else if value == 0x53 {
            Ok(TargetOsAbi::Arm)
        } else if value == 0x61 {
            Ok(TargetOsAbi::Standalone)
        } else {
            Err(
                OsoLoaderError::EfiParse(
                    message_with_number(
                        "target os abi value is invalid or unsupported: ",
                        value as u64,
                    ),
                ),
            )
        }
    }
}

/// The ABI version byte of the identification block.
#[derive(PartialEq, Eq, Structural, Clone, Copy, Debug)]
pub struct AbiVersion(pub u8);

impl AbiVersion {
    /// The default ABI version.
    pub fn one() -> (v: AbiVersion)
        ensures
            v == AbiVersion(0),
    {
        AbiVersion(0)
    }
}

/// The decoded identification block.
#[derive(PartialEq, Eq, Structural, Clone, Copy, Debug)]
pub struct ElfHeaderIdent {
    pub file_class: FileClass,
    pub endianness: Endian,
    pub elf_version: ElfVersion,
    pub target_os_abi: TargetOsAbi,
    pub abi_version: AbiVersion,
}

/// `\x7fELF`
pub open spec fn has_magic(s: Seq<u8>) -> bool {
    &&& s.len() >= 4
    &&& s[0] == 0x7f
    &&& s[1] == 0x45
    &&& s[2] == 0x4c
    &&& s[3] == 0x46
}

/// The identification block `s` is accepted.
pub open spec fn ident_valid(s: Seq<u8>) -> bool {
    &&& s.len() == ELF_IDENT_SIZE
    &&& has_magic(s)
    &&& spec_file_class(s[4]) is Some
    &&& spec_endian(s[5]) is Some
    &&& spec_os_abi(s[7]) is Some
}

/// What an accepted identification block decodes to.
pub open spec fn spec_ident(s: Seq<u8>) -> ElfHeaderIdent {
    ElfHeaderIdent {
        file_class: spec_file_class(s[4]).unwrap(),
        endianness: spec_endian(s[5]).unwrap(),
        elf_version: ElfVersion(s[6]),
        target_os_abi: spec_os_abi(s[7]).unwrap(),
        abi_version: AbiVersion(s[8]),
    }
}

/// The message for an unknown `e_type` value.
pub open spec fn elf_type_error(v: u16) -> Seq<char> {
    "unknown type: "@ + decimal(v as nat)
}

/// The message for an unknown file class byte.
pub open spec fn file_class_error(v: u8) -> Seq<char> {
    "invalid file class: "@ + decimal(v as nat)
}

/// The message for an unknown data encoding byte.
pub open spec fn endian_error(v: u8) -> Seq<char> {
    "invalid endianness flag value: "@ + decimal(v as nat)
}

/// The message for an unsupported OS ABI byte.
pub open spec fn os_abi_error(v: u8) -> Seq<char> {
    "target os abi value is invalid or unsupported: "@ + decimal(v as nat)
}

/// The message for the first fault of the identification block `s`: its
/// length, its magic number, then its class, encoding and OS ABI bytes.
pub open spec fn ident_error(s: Seq<u8>) -> Seq<char> {
    if s.len() != ELF_IDENT_SIZE {
        "ident len is 16, but given ident len is "@ + decimal(s.len())
    } else if !has_magic(s) {
        magic_text(s)
    } else if spec_file_class(s[4]) is None {
        file_class_error(s[4])
    } else if spec_endian(s[5]) is None {
        endian_error(s[5])
    } else {
        os_abi_error(s[7])
    }
}

/// The message for a file `b` whose header is refused: the fault of its
/// identification block, or else its unknown `e_type`.
pub open spec fn header_error(b: Seq<u8>) -> Seq<char> {
    if !ident_valid(b.subrange(0, 16)) {
        ident_error(b.subrange(0, 16))
    } else {
        elf_type_error(le_at(b, 16, 2) as u16)
    }
}

/// `bad magic number: [a, b, c, d]`, the first four bytes of `ident` in decimal,
/// as `{:?}` renders them.
pub open spec fn magic_text(ident: Seq<u8>) -> Seq<char> {
    "bad magic number: ["@ + decimal(ident[0] as nat) + ", "@ + decimal(ident[1] as nat) + ", "@
        + decimal(ident[2] as nat) + ", "@ + decimal(ident[3] as nat) + "]"@
}

fn magic_message(ident: &[u8]) -> (s: String)
    requires
        ident@.len() >= 4,
    ensures
        s@ == magic_text(ident@),
{
    let mut s = String::from_str("bad magic number: [");
    push_decimal(&mut s, ident[0] as u64);
    s.append(", ");
    push_decimal(&mut s, ident[1] as u64);
    s.append(", ");
    push_decimal(&mut s, ident[2] as u64);
    s.append(", ");
    push_decimal(&mut s, ident[3] as u64);
    s.append("]");
    s
}

impl ElfHeaderIdent {
    /// Decodes the 16 identification bytes.
    pub fn new(ident: &[u8]) -> (r: Rslt<ElfHeaderIdent>)
        ensures
            r is Ok <==> ident_valid(ident@),
            r matches Ok(id) ==> id == spec_ident(ident@),
            !ident_valid(ident@) ==> (r matches Err(OsoLoaderError::EfiParse(m)) && m@
                == ident_error(ident@)),
    {
        if ident.len() != ELF_IDENT_SIZE {
            return Err(
                OsoLoaderError::EfiParse(
                    message_with_number(
                        "ident len is 16, but given ident len is ",
                        ident.len() as u64,
                    ),
                ),
            );
        }
        if !(ident[0] == 0x7f && ident[1] == 0x45 && ident[2] == 0x4c && ident[3] == 0x46) {
            return Err(OsoLoaderError::EfiParse(magic_message(ident)));
        }
        let file_class = FileClass::try_from(ident[ELF_FILE_CLASS_INDEX])?;
        let endianness = Endian::try_from(ident[ELF_ENDIANNESS_INDEX])?;
        let elf_version = ElfVersion(ident[ELF_VERSION_INDEX]);
        let target_os_abi = TargetOsAbi::try_from(ident[ELF_OS_ABI_INDEX])?;
        let abi_version = AbiVersion(ident[ELF_ABI_VERSION_INDEX]);
        Ok(ElfHeaderIdent { file_class, endianness, elf_version, target_os_abi, abi_version })
    }

    pub fn is_64(&self) -> (b: bool)
        ensures
            b == (self.file_class == FileClass::Bit64),
    {
        self.file_class.is_64()
    }

    pub fn is_little_endian(&self) -> (b: bool)
        ensures
            b == (self.endianness == Endian::Little),
    {
        self.endianness.is_little_endian()
    }
}

/// The ELF64 file header.
#[derive(PartialEq, Eq, Structural, Clone, Copy, Debug)]
pub struct ElfHeader {
    pub ident: ElfHeaderIdent,
    pub ty: ElfType,
    pub machine: u16,
    pub version: u32,
    pub entry: u64,
    pub program_header_offset: u64,
    pub section_header_offset: u64,
    pub flags: u32,
    pub elf_header_size: u16,
    pub program_header_entry_size: u16,
    pub program_header_count: u16,
    pub section_header_entry_size: u16,
    pub section_header_count: u16,
    pub section_header_index_of_section_name_string_table: u16,
}

/// The header fields that follow the identification block, read little-endian
/// from `b` (the whole file) at their ELF64 offsets.
pub open spec fn spec_header(b: Seq<u8>) -> ElfHeader {
    ElfHeader {
        ident: spec_ident(b.subrange(0, 16)),
        ty: spec_elf_type(le_at(b, 16, 2) as u16).unwrap(),
        machine: le_at(b, 18, 2) as u16,
        version: le_at(b, 20, 4) as u32,
        entry: le_at(b, 24, 8) as u64,
        program_header_offset: le_at(b, 32, 8) as u64,
        section_header_offset: le_at(b, 40, 8) as u64,
        flags: le_at(b, 48, 4) as u32,
        elf_header_size: le_at(b, 52, 2) as u16,
        program_header_entry_size: le_at(b, 54, 2) as u16,
        program_header_count: le_at(b, 56, 2) as u16,
        section_header_entry_size: le_at(b, 58, 2) as u16,
        section_header_count: le_at(b, 60, 2) as u16,
        section_header_index_of_section_name_string_table: le_at(b, 62, 2) as u16,
    }
}

/// The file `b` starts with an accepted ELF header.
pub open spec fn header_valid(b: Seq<u8>) -> bool {
    &&& b.len() >= ELF_HEADER_SIZE_64
    &&& ident_valid(b.subrange(0, 16))
    &&& spec_elf_type(le_at(b, 16, 2) as u16) is Some
}

/// Reads the fields after the identification block from `ident_remain`, the file
/// without its first 16 bytes.
fn header_flag_fields(ident: ElfHeaderIdent, ident_remain: &[u8]) -> (r: Rslt<ElfHeader>)
    requires
        ident_remain@.len() >= 48,
    ensures
        spec_elf_type(le_at(ident_remain@, 0, 2) as u16) is None ==> (r matches Err(
            OsoLoaderError::EfiParse(m),
        ) && m@ == elf_type_error(le_at(ident_remain@, 0, 2) as u16)),
        spec_elf_type(le_at(ident_remain@, 0, 2) as u16) matches Some(t) ==> r == Ok::<
            ElfHeader,
            OsoLoaderError,
        >(
            ElfHeader {
                ident,
                ty: t,
                machine: le_at(ident_remain@, 2, 2) as u16,
                version: le_at(ident_remain@, 4, 4) as u32,
                entry: le_at(ident_remain@, 8, 8) as u64,
                program_header_offset: le_at(ident_remain@, 16, 8) as u64,
                section_header_offset: le_at(ident_remain@, 24, 8) as u64,
                flags: le_at(ident_remain@, 32, 4) as u32,
                elf_header_size: le_at(ident_remain@, 36, 2) as u16,
                program_header_entry_size: le_at(ident_remain@, 38, 2) as u16,
                program_header_count: le_at(ident_remain@, 40, 2) as u16,
                section_header_entry_size: le_at(ident_remain@, 42, 2) as u16,
                section_header_count: le_at(ident_remain@, 44, 2) as u16,
                section_header_index_of_section_name_string_table: le_at(
                    ident_remain@,
                    46,
                    2,
                ) as u16,
            },
        ),
{
    let mut offset: usize = 0;
    let ty = read_le_u16(&mut offset, ident_remain);
    let machine = read_le_u16(&mut offset, ident_remain);
    let version = read_le_u32(&mut offset, ident_remain);
    let entry = read_le_u64(&mut offset, ident_remain);
    let program_header_offset = read_le_u64(&mut offset, ident_remain);
    let section_header_offset = read_le_u64(&mut offset, ident_remain);
    let flags = read_le_u32(&mut offset, ident_remain);
    let elf_header_size = read_le_u16(&mut offset, ident_remain);
    let program_header_entry_size = read_le_u16(&mut offset, ident_remain);
    let program_header_count = read_le_u16(&mut offset, ident_remain);
    let section_header_entry_size = read_le_u16(&mut offset, ident_remain);
    let section_header_count = read_le_u16(&mut offset, ident_remain);
    let section_header_index_of_section_name_string_table = read_le_u16(
        &mut offset,
        ident_remain,
    );
    let ty = ElfType::try_from(ty)?;
    Ok(
        ElfHeader {
            ident,
            ty,
            machine,
            version,
            entry,
            program_header_offset,
            section_header_offset,
            flags,
            elf_header_size,
            program_header_entry_size,
            program_header_count,
            section_header_entry_size,
            section_header_count,
            section_header_index_of_section_name_string_table,
        },
    )
}

proof fn lemma_le_at_shift(b: Seq<u8>, k: int, off: int, n: int)
    requires
        0 <= k,
        0 <= off,
        0 <= n,
        k + off + n <= b.len(),
    ensures
        le_at(b.subrange(k, b.len() as int), off, n) == le_at(b, k + off, n),
{
    assert(b.subrange(k, b.len() as int).subrange(off, off + n) =~= b.subrange(k + off, k + off + n));
}

impl ElfHeader {
    /// Parses the file header at the start of `binary`. The identification block
    /// is checked first; a file shorter than the identification block, or one
    /// with a valid identification block but shorter than a full header, is out
    /// of this function's domain.
    pub fn parse(binary: &Vec<u8>) -> (r: Rslt<ElfHeader>)
        requires
            binary@.len() >= ELF_IDENT_SIZE,
            ident_valid(binary@.subrange(0, 16)) ==> binary@.len() >= ELF_HEADER_SIZE_64,
        ensures
            r is Ok <==> header_valid(binary@),
            r matches Ok(h) ==> h == spec_header(binary@),
            !header_valid(binary@) ==> (r matches Err(OsoLoaderError::EfiParse(m)) && m@ == header_error(binary@)),
    {
        let ident = slice_subrange(binary.as_slice(), 0, ELF_IDENT_SIZE);
        let ident = ElfHeaderIdent::new(ident)?;
        let len = binary.len();
        let remain = slice_subrange(binary.as_slice(), ELF_IDENT_SIZE, len);
        proof {
            let b = binary@;
            lemma_le_at_shift(b, 16, 0, 2);
            lemma_le_at_shift(b, 16, 2, 2);
            lemma_le_at_shift(b, 16, 4, 4);
            lemma_le_at_shift(b, 16, 8, 8);
            lemma_le_at_shift(b, 16, 16, 8);
            lemma_le_at_shift(b, 16, 24, 8);
            lemma_le_at_shift(b, 16, 32, 4);
            lemma_le_at_shift(b, 16, 36, 2);
            lemma_le_at_shift(b, 16, 38, 2);
            lemma_le_at_shift(b, 16, 40, 2);
            lemma_le_at_shift(b, 16, 42, 2);
            lemma_le_at_shift(b, 16, 44, 2);
            lemma_le_at_shift(b, 16, 46, 2);
        }
        header_flag_fields(ident, remain)
    }

    pub fn is_64(&self) -> (b: bool)
        ensures
            b == (self.ident.file_class == FileClass::Bit64),
    {
        self.ident.is_64()
    }

    pub fn is_lib(&self) -> (b: bool)
        ensures
            b == (self.ty == ElfType::SharedObject),
    {
        self.ty.is_lib()
    }

    pub fn is_little_endian(&self) -> (b: bool)
        ensures
            b == (self.ident.endianness == Endian::Little),
    {
        self.ident.is_little_endian()
    }
}

} // verus!
