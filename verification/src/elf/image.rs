//! The whole ELF image: parsing every table the loader uses, and the memory
//! layout of its loadable segments.

use vstd::prelude::*;
use vstd::slice::slice_subrange;
use vstd::utf8::{decode_utf8, encode_utf8, valid_utf8};
use crate::elf::dynamic::{
    DT_NEEDED, Dyn, Dynamic, DynamicInfo, dynamic_parse_defined, first_of_type, fold_defined,
    fold_info, segment_bytes, segment_dyns, spec_dyns, update_defined,
};
use crate::elf::header::{
    ELF_HEADER_SIZE_64, ELF_IDENT_SIZE, ElfHeader, ElfType, Endian, FileClass, header_error,
    header_valid, ident_valid, spec_header,
};
use crate::elf::program_header::{PT_DYNAMIC, PT_INTERP, PT_LOAD, ProgramHeader, spec_program_headers};
use crate::elf::section_header::{
    SHT_SYMTAB, SectionHeader, get_string_table, spec_section_headers, string_table_holds,
    string_table_parses,
};
use crate::elf::strtab::{
    StringContext, StringTable, lossy_utf8, region_fits, strings_view, table_holds, table_parses,
};
use crate::elf::symbol::{
    Context, RelocationSection, SymbolTable, SymbolVersionSection, VersionDefinitionSection,
    VersionNeededSection,
};
use crate::error::{OsoLoaderError, Rslt};
use crate::text::{decimal, message_with_number};

verus! {

/// A parsed ELF64 image.
pub struct Elf {
    pub header: ElfHeader,
    pub program_headers: Vec<ProgramHeader>,
    pub section_headers: Vec<SectionHeader>,
    pub section_header_string_table: StringTable,
    pub dynamic_string_table: StringTable,
    pub dynamic_symbol_table: SymbolTable,
    pub symbol_table: SymbolTable,
    pub string_table_for_symbol_table: StringTable,
    pub dynamic_info: Option<Dynamic>,
    pub dynamic_relocation_with_addend: RelocationSection,
    pub dynamic_relocation: RelocationSection,
    pub procedure_linkage_table_relocation: RelocationSection,
    pub section_relocations: Vec<(usize, RelocationSection)>,
    pub shared_object_name: Option<String>,
    pub interpreter: Option<String>,
    pub libraries: Vec<String>,
    pub runtime_search_path_deprecated: Vec<String>,
    pub runtime_search_path: Vec<String>,
    pub is_64: bool,
    pub is_shared_object: bool,
    pub entry_point_address: u64,
    pub little_endian: bool,
    pub symbol_version_section: Option<SymbolVersionSection>,
    pub version_definition_section: Option<VersionDefinitionSection>,
    pub version_needed_section: Option<VersionNeededSection>,
}

/// The program header table described by header `h` lies within `b`.
pub open spec fn program_table_fits(b: Seq<u8>, h: ElfHeader) -> bool {
    h.program_header_offset as usize + 56 * h.program_header_count <= b.len()
}

/// The section header table described by header `h` lies within `b`.
pub open spec fn section_table_fits(b: Seq<u8>, h: ElfHeader) -> bool {
    h.section_header_offset as usize + 64 * h.section_header_count <= b.len()
}

/// The program headers of `b`, given that its header and table are in order.
pub open spec fn spec_elf_program_headers(b: Seq<u8>) -> Seq<ProgramHeader> {
    let h = spec_header(b);
    spec_program_headers(b, h.program_header_offset as usize as int, h.program_header_count as nat)
}

/// The section headers of `b`, given that its header and table are in order.
pub open spec fn spec_elf_section_headers(b: Seq<u8>) -> Seq<SectionHeader> {
    let h = spec_header(b);
    spec_section_headers(b, h.section_header_offset as usize as int, h.section_header_count as nat)
}

/// Every interpreter segment with content names a path that lies within `b`.
pub open spec fn interpreters_fit(b: Seq<u8>, phdrs: Seq<ProgramHeader>) -> bool {
    forall|i: int|
        0 <= i < phdrs.len() && (#[trigger] phdrs[i]).ty == PT_INTERP && phdrs[i].file_size != 0
            ==> phdrs[i].offset as usize <= b.len() && ((phdrs[i].file_size - 1) as usize)
            <= b.len() - phdrs[i].offset as usize
}

/// Index of the last interpreter segment with content among `phdrs`.
pub open spec fn last_interp(phdrs: Seq<ProgramHeader>) -> Option<int>
    decreases phdrs.len(),
{
    if phdrs.len() == 0 {
        None
    } else if phdrs.last().ty == PT_INTERP && phdrs.last().file_size != 0 {
        Some(phdrs.len() - 1)
    } else {
        last_interp(phdrs.drop_last())
    }
}

proof fn lemma_last_interp_bound(phdrs: Seq<ProgramHeader>)
    ensures
        last_interp(phdrs) matches Some(k) ==> 0 <= k < phdrs.len(),
    decreases phdrs.len(),
{
    if phdrs.len() > 0 {
        lemma_last_interp_bound(phdrs.drop_last());
    }
}

/// The interpreter path of `b`: the bytes of the last interpreter segment with
/// content, without their final (terminating) byte, read as UTF-8.
pub open spec fn spec_interpreter(b: Seq<u8>, phdrs: Seq<ProgramHeader>) -> Option<Seq<char>> {
    match last_interp(phdrs) {
        None => None,
        Some(i) => {
            let off = phdrs[i].offset as usize as int;
            let n = (phdrs[i].file_size - 1) as usize as int;
            Some(lossy_utf8(b.subrange(off, off + n)))
        },
    }
}

/// Segment `ph` names an interpreter path: it is a `PT_INTERP` segment with
/// content.
pub open spec fn names_interpreter(ph: ProgramHeader) -> bool {
    ph.ty == PT_INTERP && ph.file_size != 0
}

/// The path bytes of interpreter segment `ph` in `b`: its file contents
/// without their final, terminating byte.
pub open spec fn path_bytes(b: Seq<u8>, ph: ProgramHeader) -> Seq<u8> {
    b.subrange(ph.offset as usize as int, ph.offset as usize as int + (ph.file_size - 1) as usize)
}

/// Segment `i` is the last of `phdrs` that names an interpreter path.
pub open spec fn is_last_interpreter(phdrs: Seq<ProgramHeader>, i: int) -> bool {
    &&& 0 <= i < phdrs.len()
    &&& names_interpreter(phdrs[i])
    &&& forall|j: int| i < j < phdrs.len() ==> !names_interpreter(#[trigger] phdrs[j])
}

proof fn lemma_last_interp_is_last(phdrs: Seq<ProgramHeader>, i: int)
    requires
        is_last_interpreter(phdrs, i),
    ensures
        last_interp(phdrs) == Some(i),
    decreases phdrs.len(),
{
    if i < phdrs.len() - 1 {
        assert(!names_interpreter(phdrs[phdrs.len() - 1]));
        let p = phdrs.drop_last();
        assert forall|j: int| i < j < p.len() implies !names_interpreter(#[trigger] p[j]) by {
            assert(p[j] == phdrs[j]);
        }
        assert(p[i] == phdrs[i]);
        lemma_last_interp_is_last(p, i);
    }
}

proof fn lemma_no_interp(phdrs: Seq<ProgramHeader>)
    requires
        forall|j: int| 0 <= j < phdrs.len() ==> !names_interpreter(#[trigger] phdrs[j]),
    ensures
        last_interp(phdrs) is None,
    decreases phdrs.len(),
{
    if phdrs.len() > 0 {
        assert(!names_interpreter(phdrs[phdrs.len() - 1]));
        let p = phdrs.drop_last();
        assert forall|j: int| 0 <= j < p.len() implies !names_interpreter(#[trigger] p[j]) by {
            assert(p[j] == phdrs[j]);
        }
        lemma_no_interp(p);
    }
}

proof fn lemma_last_interp_names(phdrs: Seq<ProgramHeader>)
    ensures
        last_interp(phdrs) matches Some(k) ==> is_last_interpreter(phdrs, k),
    decreases phdrs.len(),
{
    if phdrs.len() > 0 && !names_interpreter(phdrs.last()) {
        let p = phdrs.drop_last();
        lemma_last_interp_names(p);
        if let Some(k) = last_interp(p) {
            assert(phdrs[k] == p[k]);
            assert forall|j: int| k < j < phdrs.len() implies !names_interpreter(#[trigger] phdrs[j]) by {
                if j < p.len() {
                    assert(phdrs[j] == p[j]);
                }
            }
        }
    }
}

/// The interpreter path is read from the last segment that names one, and is
/// exactly its file contents without their final byte: `file_size - 1` bytes
/// from the segment's offset, decoded; with no such segment there is none.
pub proof fn lemma_interpreter_is_last_path(b: Seq<u8>, phdrs: Seq<ProgramHeader>)
    ensures
        (forall|j: int| 0 <= j < phdrs.len() ==> !names_interpreter(#[trigger] phdrs[j]))
            ==> spec_interpreter(b, phdrs) is None,
        forall|i: int|
            #![trigger is_last_interpreter(phdrs, i)]
            is_last_interpreter(phdrs, i) ==> spec_interpreter(b, phdrs) == Some(
                lossy_utf8(
                    b.subrange(
                        phdrs[i].offset as usize as int,
                        phdrs[i].offset as usize as int + (phdrs[i].file_size - 1) as usize,
                    ),
                ),
            ),
{
    if forall|j: int| 0 <= j < phdrs.len() ==> !names_interpreter(#[trigger] phdrs[j]) {
        lemma_no_interp(phdrs);
    }
    assert forall|i: int| #![trigger is_last_interpreter(phdrs, i)] is_last_interpreter(phdrs, i) implies spec_interpreter(b, phdrs) == Some(
        lossy_utf8(
            b.subrange(
                phdrs[i].offset as usize as int,
                phdrs[i].offset as usize as int + (phdrs[i].file_size - 1) as usize,
            ),
        ),
    ) by {
        lemma_last_interp_is_last(phdrs, i);
    }
}

/// The interpreter path `s` keeps the bytes of the segment it is read from:
/// where the last segment that names a path holds valid UTF-8, the path is
/// there and encodes to exactly those `file_size - 1` bytes.
pub open spec fn path_bytes_kept(b: Seq<u8>, phdrs: Seq<ProgramHeader>, s: Option<String>) -> bool {
    forall|i: int|
        #![trigger is_last_interpreter(phdrs, i)]
        is_last_interpreter(phdrs, i) ==> (s matches Some(p) && (valid_utf8(path_bytes(b, phdrs[i]))
            ==> encode_utf8(p@) == path_bytes(b, phdrs[i])))
}

/// The text of an optional string.
pub open spec fn opt_text(o: Option<String>) -> Option<Seq<char>> {
    match o {
        None => None,
        Some(s) => Some(s@),
    }
}

/// The symbol table section a file `b` with sections `shdrs` is read with: the
/// last section of type `SHT_SYMTAB`.
pub open spec fn last_symtab(shdrs: Seq<SectionHeader>) -> Option<int>
    decreases shdrs.len(),
{
    if shdrs.len() == 0 {
        None
    } else if shdrs.last().ty == SHT_SYMTAB {
        Some(shdrs.len() - 1)
    } else {
        last_symtab(shdrs.drop_last())
    }
}

/// Number of symbols in symbol table section `sh`.
pub open spec fn symbol_count(sh: SectionHeader) -> u64 {
    if sh.entry_size == 0 {
        0
    } else {
        sh.size / sh.entry_size
    }
}

/// What the symbol table of `b` holds: the bytes of the `count` entries of the
/// last `SHT_SYMTAB` section, or nothing when there is none.
pub open spec fn symbol_table_matches(t: SymbolTable, b: Seq<u8>, shdrs: Seq<SectionHeader>) -> bool {
    match last_symtab(shdrs) {
        None => t.bytes@.len() == 0 && t.count == 0,
        Some(i) => {
            let n = symbol_count(shdrs[i]) as usize;
            let off = shdrs[i].offset as usize;
            &&& t.count == n
            &&& t.start == off
            &&& t.bytes@ == b.subrange(off as int, off + n * 24)
        },
    }
}

/// The symbol table, if any, lies within `b`.
pub open spec fn symbol_table_fits(b: Seq<u8>, shdrs: Seq<SectionHeader>) -> bool {
    match last_symtab(shdrs) {
        None => true,
        Some(i) => {
            let n = symbol_count(shdrs[i]) as usize;
            n * 24 <= usize::MAX && shdrs[i].offset as usize + n * 24 <= b.len()
        },
    }
}

/// The dynamic string table named by the dynamic section of `b`, if there is
/// one, reads without error.
pub open spec fn dynamic_strings_parse(b: Seq<u8>, phdrs: Seq<ProgramHeader>) -> bool {
    match first_of_type(phdrs, PT_DYNAMIC) {
        None => true,
        Some(i) => {
            let info = fold_info(phdrs, segment_dyns(b, phdrs[i]));
            table_parses(b, info.string_table_address as int, info.string_table_size as int, 0)
        },
    }
}

/// Whether `t` holds the dynamic string table that the dynamic section of `b`
/// names; the empty table where there is no dynamic section.
pub open spec fn dynamic_strings_hold(t: StringTable, b: Seq<u8>, phdrs: Seq<ProgramHeader>) -> bool {
    match first_of_type(phdrs, PT_DYNAMIC) {
        None => t.bytes@.len() == 0 && t.strings@.len() == 0 && t.delimitor == StringContext::Delimiter(0),
        Some(i) => {
            let info = fold_info(phdrs, segment_dyns(b, phdrs[i]));
            table_holds(t, b, info.string_table_address as int, info.string_table_size as int)
        },
    }
}

/// The name `b` gives itself as a shared object: the string of the dynamic
/// string table `t` at the offset its dynamic section records, where it
/// records one.
pub open spec fn spec_shared_object_name(t: StringTable, b: Seq<u8>, phdrs: Seq<ProgramHeader>) -> Option<Seq<char>> {
    match first_of_type(phdrs, PT_DYNAMIC) {
        None => None,
        Some(i) => {
            let info = fold_info(phdrs, segment_dyns(b, phdrs[i]));
            if info.shared_object_name_offset == 0 {
                None
            } else {
                first_string_at(strings_view(t.strings@), info.shared_object_name_offset)
            }
        },
    }
}

/// Every table that `Elf::parse` reads from `b` lies within `b` and decodes.
pub open spec fn elf_parses(b: Seq<u8>) -> bool {
    let h = spec_header(b);
    let phdrs = spec_elf_program_headers(b);
    let shdrs = spec_elf_section_headers(b);
    &&& header_valid(b)
    &&& program_table_fits(b, h)
    &&& section_table_fits(b, h)
    &&& interpreters_fit(b, phdrs)
    &&& string_table_parses(shdrs, h.section_header_index_of_section_name_string_table as usize as int, b)
    &&& symbol_table_fits(b, shdrs)
    &&& dynamic_parse_defined(b, phdrs)
    &&& dynamic_strings_parse(b, phdrs)
}

impl Elf {
    /// Parses every table of the image in `binary` that the loader uses: the
    /// file header, the program headers (and the interpreter path they name),
    /// the section headers, the section name string table, the symbol table,
    /// the dynamic section and its string table. A table that lies outside the
    /// file, or that does not decode, gives an error.
    pub fn parse(binary: &Vec<u8>) -> (r: Rslt<Elf>)
        requires
            binary@.len() <= isize::MAX,
        ensures
            r is Ok <==> elf_parses(binary@),
            binary@.len() < ELF_IDENT_SIZE || (ident_valid(binary@.subrange(0, 16)) && binary@.len()
                < ELF_HEADER_SIZE_64) ==> (r matches Err(OsoLoaderError::EfiParse(m)) && m@
                == "file too small: "@ + decimal(binary@.len() as nat)),
            binary@.len() >= ELF_IDENT_SIZE && (ident_valid(binary@.subrange(0, 16)) ==> binary@.len()
                >= ELF_HEADER_SIZE_64) && !header_valid(binary@) ==> (r matches Err(
                OsoLoaderError::EfiParse(m),
            ) && m@ == header_error(binary@)),
            !header_valid(binary@) ==> r is Err,
            header_valid(binary@) && !program_table_fits(binary@, spec_header(binary@)) ==> r is Err,
            header_valid(binary@) && !section_table_fits(binary@, spec_header(binary@)) ==> r is Err,
            r matches Ok(elf) ==> {
                &&& elf.header == spec_header(binary@)
                &&& elf.program_headers@ == spec_elf_program_headers(binary@)
                &&& elf.section_headers@ == spec_elf_section_headers(binary@)
                &&& elf.entry_point_address == elf.header.entry
                &&& elf.is_64 == (elf.header.ident.file_class == FileClass::Bit64)
                &&& elf.little_endian == (elf.header.ident.endianness == Endian::Little)
                &&& elf.is_shared_object == (elf.header.ty == ElfType::SharedObject)
                &&& opt_text(elf.interpreter) == spec_interpreter(binary@, elf.program_headers@)
                &&& path_bytes_kept(binary@, elf.program_headers@, elf.interpreter)
                &&& symbol_table_matches(elf.symbol_table, binary@, elf.section_headers@)
                &&& string_table_holds(
                    elf.section_header_string_table,
                    elf.section_headers@,
                    elf.header.section_header_index_of_section_name_string_table as usize as int,
                    binary@,
                )
                &&& dynamic_strings_hold(elf.dynamic_string_table, binary@, elf.program_headers@)
                &&& opt_text(elf.shared_object_name) == spec_shared_object_name(
                    elf.dynamic_string_table,
                    binary@,
                    elf.program_headers@,
                )
                &&& elf.dynamic_symbol_table.count == 0
                &&& elf.string_table_for_symbol_table.bytes@.len() == 0
                &&& elf.dynamic_relocation_with_addend.count == 0
                &&& elf.dynamic_relocation.count == 0
                &&& elf.procedure_linkage_table_relocation.count == 0
                &&& elf.section_relocations@.len() == 0
                &&& elf.libraries@.len() == 0
                &&& elf.runtime_search_path_deprecated@.len() == 0
                &&& elf.runtime_search_path@.len() == 0
                &&& elf.symbol_version_section is None
                &&& elf.version_definition_section is None
                &&& elf.version_needed_section is None
                &&& match first_of_type(elf.program_headers@, PT_DYNAMIC) {
                    None => elf.dynamic_info is None,
                    Some(i) => elf.dynamic_info matches Some(d) && d.dyns@ == segment_dyns(
                        binary@,
                        elf.program_headers@[i],
                    ) && d.info == fold_info(elf.program_headers@, d.dyns@),
                }
            },
    {
        let len = binary.len();
        if len < ELF_IDENT_SIZE {
            return Err(OsoLoaderError::EfiParse(message_with_number("file too small: ", len as u64)));
        }
        let ident_ok = match crate::elf::header::ElfHeaderIdent::new(
            slice_subrange(binary.as_slice(), 0, ELF_IDENT_SIZE),
        ) {
            Ok(_) => true,
            Err(_) => false,
        };
        if ident_ok && len < ELF_HEADER_SIZE_64 {
            return Err(OsoLoaderError::EfiParse(message_with_number("file too small: ", len as u64)));
        }
        let header = ElfHeader::parse(binary)?;

        let program_header_offset = header.program_header_offset as usize;
        let program_header_count = header.program_header_count as usize;
        if program_header_offset > len || program_header_count > (len - program_header_offset) / 56 {
            return Err(
                OsoLoaderError::EfiParse(
                    message_with_number("program header table out of bounds at ", program_header_offset as u64),
                ),
            );
        }
        let mut offset = program_header_offset;
        let program_headers = ProgramHeader::parse(binary.as_slice(), &mut offset, program_header_count)?;

        let interpreter = Elf::interpreter_of(binary, &program_headers)?;

        let section_header_offset = header.section_header_offset as usize;
        let section_header_count = header.section_header_count as usize;
        if section_header_offset > len || section_header_count > (len - section_header_offset) / 64 {
            return Err(
                OsoLoaderError::EfiParse(
                    message_with_number("section header table out of bounds at ", section_header_offset as u64),
                ),
            );
        }
        offset = section_header_offset;
        let section_headers = SectionHeader::parse(binary.as_slice(), &mut offset, section_header_count)?;

        let string_table_index = header.section_header_index_of_section_name_string_table as usize;
        let section_header_string_table = get_string_table(
            section_headers.as_slice(),
            string_table_index,
            binary,
        )?;

        let symbol_table = Elf::symbol_table_of(binary, &section_headers)?;

        if !Elf::dynamic_parse_check(binary, &program_headers) {
            return Err(OsoLoaderError::EfiParse(message_with_number("malformed dynamic section: ", 0)));
        }
        let dynamic = Dynamic::parse(binary, &program_headers)?;
        let mut dynamic_string_table = StringTable::default();
        let mut shared_object_name = None;
        match &dynamic {
            Some(dynamic) => {
                let dyn_info = &dynamic.info;
                dynamic_string_table = StringTable::parse(
                    binary,
                    dyn_info.string_table_address,
                    dyn_info.string_table_size,
                    0,
                )?;
                if dyn_info.shared_object_name_offset != 0 {
                    shared_object_name = string_at(&dynamic_string_table, dyn_info.shared_object_name_offset);
                }
            },
            None => {},
        }

        let is_64 = header.is_64();
        let is_shared_object = header.is_lib();
        let little_endian = header.is_little_endian();
        let entry_point_address = header.entry;
        Ok(
            Elf {
                header,
                program_headers,
                section_headers,
                section_header_string_table,
                dynamic_string_table,
                dynamic_symbol_table: SymbolTable::default(),
                symbol_table,
                string_table_for_symbol_table: StringTable::default(),
                dynamic_info: dynamic,
                dynamic_relocation_with_addend: RelocationSection::default(),
                dynamic_relocation: RelocationSection::default(),
                procedure_linkage_table_relocation: RelocationSection::default(),
                section_relocations: Vec::new(),
                shared_object_name,
                interpreter,
                libraries: Vec::new(),
                runtime_search_path_deprecated: Vec::new(),
                runtime_search_path: Vec::new(),
                is_64,
                is_shared_object,
                entry_point_address,
                little_endian,
                symbol_version_section: None,
                version_definition_section: None,
                version_needed_section: None,
            },
        )
    }

    /// The interpreter path named by the last `PT_INTERP` segment with content.
    fn interpreter_of(binary: &Vec<u8>, program_headers: &Vec<ProgramHeader>) -> (r: Rslt<
        Option<String>,
    >)
        ensures
            r is Ok <==> interpreters_fit(binary@, program_headers@),
            r matches Ok(s) ==> opt_text(s) == spec_interpreter(binary@, program_headers@),
            r matches Ok(s) ==> path_bytes_kept(binary@, program_headers@, s),
    {
        let len = binary.len();
        let mut interpreter: Option<String> = None;
        let mut i: usize = 0;
        assert(program_headers@.take(0) =~= Seq::<ProgramHeader>::empty());
        while i < program_headers.len()
            invariant
                i <= program_headers@.len(),
                len == binary@.len(),
                opt_text(interpreter) == spec_interpreter(binary@, program_headers@.take(i as int)),
                last_interp(program_headers@.take(i as int)) matches Some(k) ==> (interpreter matches Some(
                    p,
                ) && (valid_utf8(path_bytes(binary@, program_headers@[k])) ==> p@ == decode_utf8(
                    path_bytes(binary@, program_headers@[k]),
                ))),
                forall|j: int|
                    0 <= j < i && (#[trigger] program_headers@[j]).ty == PT_INTERP
                        && program_headers@[j].file_size != 0 ==> program_headers@[j].offset as usize
                        <= binary@.len() && ((program_headers@[j].file_size - 1) as usize)
                        <= binary@.len() - program_headers@[j].offset as usize,
            decreases program_headers@.len() - i,
        {
            let program_header = &program_headers[i];
            assert(program_headers@.take(i + 1).drop_last() =~= program_headers@.take(i as int));
            assert(program_headers@.take(i + 1).last() == program_headers@[i as int]);
            if program_header.ty == PT_INTERP && program_header.file_size != 0 {
                let count = (program_header.file_size - 1) as usize;
                let offset = program_header.offset as usize;
                if offset > len || count > len - offset {
                    return Err(
                        OsoLoaderError::EfiParse(
                            message_with_number("interpreter path out of bounds at ", offset as u64),
                        ),
                    );
                }
                let tail = slice_subrange(binary.as_slice(), offset, len);
                let s = StringContext::Length(count).read_bytes(tail)?;
                assert(tail@.subrange(0, count as int) =~= binary@.subrange(
                    offset as int,
                    offset + count,
                ));
                assert(last_interp(program_headers@.take(i + 1)) == Some(i as int));
                assert(path_bytes(binary@, program_headers@[i as int]) == binary@.subrange(
                    offset as int,
                    offset + count,
                ));
                interpreter = Some(s);
            } else {
                proof {
                    lemma_last_interp_bound(program_headers@.take(i as int));
                    if let Some(k) = last_interp(program_headers@.take(i as int)) {
                        assert(program_headers@.take(i + 1)[k] == program_headers@.take(i as int)[k]);
                    }
                }
            }
            i = i + 1;
        }
        assert(program_headers@.take(i as int) =~= program_headers@);
        proof {
            assert forall|k: int| #![trigger is_last_interpreter(program_headers@, k)] is_last_interpreter(program_headers@, k) implies (
            interpreter matches Some(p) && (valid_utf8(path_bytes(binary@, program_headers@[k]))
                ==> encode_utf8(p@) == path_bytes(binary@, program_headers@[k]))) by {
                lemma_last_interp_is_last(program_headers@, k);
                if valid_utf8(path_bytes(binary@, program_headers@[k])) {
                    vstd::utf8::decode_utf8_encode_utf8(path_bytes(binary@, program_headers@[k]));
                }
            }
        }
        Ok(interpreter)
    }

    /// The symbol table of the last `SHT_SYMTAB` section, or an empty one.
    fn symbol_table_of(binary: &Vec<u8>, section_headers: &Vec<SectionHeader>) -> (r: Rslt<
        SymbolTable,
    >)
        ensures
            r is Ok <==> symbol_table_fits(binary@, section_headers@),
            r matches Ok(t) ==> symbol_table_matches(t, binary@, section_headers@),
    {
        let len = binary.len();
        let mut i: usize = section_headers.len();
        assert(section_headers@.take(i as int) =~= section_headers@);
        while i > 0
            invariant
                i <= section_headers@.len(),
                len == binary@.len(),
                last_symtab(section_headers@) == last_symtab(section_headers@.take(i as int)),
            decreases i,
        {
            assert(section_headers@.take(i as int).drop_last() =~= section_headers@.take(i - 1));
            if section_headers[i - 1].ty == SHT_SYMTAB {
                assert(section_headers@.take(i as int).last() == section_headers@[i - 1]);
                assert(last_symtab(section_headers@) == Some(i - 1));
                let section_header = &section_headers[i - 1];
                let size = section_header.entry_size;
                let count = if size == 0 {
                    0
                } else {
                    section_header.size / size
                };
                let count = count as usize;
                let offset = section_header.offset as usize;
                let fits = match count.checked_mul(24) {
                    Some(n) => offset <= len && n <= len - offset,
                    None => false,
                };
                if !fits {
                    return Err(
                        OsoLoaderError::EfiParse(
                            message_with_number("symbol table out of bounds at ", offset as u64),
                        ),
                    );
                }
                return SymbolTable::parse(binary, offset, count, Context::default());
            }
            i = i - 1;
        }
        Ok(SymbolTable::default())
    }

    /// Whether `Dynamic::parse` is defined on `binary` and `program_headers`.
    fn dynamic_parse_check(binary: &Vec<u8>, program_headers: &Vec<ProgramHeader>) -> (ok: bool)
        ensures
            ok == dynamic_parse_defined(binary@, program_headers@),
    {
        let len = binary.len();
        let mut i: usize = 0;
        while i < program_headers.len()
            invariant
                i <= program_headers@.len(),
                len == binary@.len(),
                forall|j: int| 0 <= j < i ==> program_headers@[j].ty != PT_DYNAMIC,
            decreases program_headers@.len() - i,
        {
            if program_headers[i].ty == PT_DYNAMIC {
                proof {
                    crate::elf::dynamic::lemma_first_of_type(program_headers@, PT_DYNAMIC, i as int);
                }
                let ph = &program_headers[i];
                let offset = ph.offset as usize;
                let file_size = ph.file_size as usize;
                let bytes: &[u8] = if file_size > 0 {
                    if offset > len || file_size > len - offset {
                        return false;
                    }
                    slice_subrange(binary.as_slice(), offset, offset + file_size)
                } else {
                    &[]
                };
                assert(bytes@ == segment_bytes(binary@, *ph));
                let dyns = Dynamic::read_entries(bytes, file_size / 16);
                assert(dyns@ == segment_dyns(binary@, *ph));
                return needed_count_fits(program_headers, &dyns);
            }
            i = i + 1;
        }
        proof {
            crate::elf::dynamic::lemma_first_of_type(program_headers@, PT_DYNAMIC, i as int);
        }
        true
    }

    pub fn is_64(&self) -> (b: bool)
        ensures
            b == (self.header.ident.file_class == FileClass::Bit64),
    {
        self.header.is_64()
    }

    pub fn is_lib(&self) -> (b: bool)
        ensures
            b == (self.header.ty == ElfType::SharedObject),
    {
        self.header.is_lib()
    }

    pub fn is_little_endian(&self) -> (b: bool)
        ensures
            b == (self.header.ident.endianness == Endian::Little),
    {
        self.header.is_little_endian()
    }
}

/// Whether recording `dyns` in order never overflows the count of needed libraries.
#[verifier::rlimit(30)]
fn needed_count_fits(program_headers: &Vec<ProgramHeader>, dyns: &Vec<Dyn>) -> (ok: bool)
    ensures
        ok == fold_defined(program_headers@, dyns@),
{
    let mut info = DynamicInfo::default();
    let mut j: usize = 0;
    while j < dyns.len()
        invariant
            j <= dyns@.len(),
            info == fold_info(program_headers@, dyns@.take(j as int)),
            forall|k: int|
                0 <= k < j ==> update_defined(
                    fold_info(program_headers@, dyns@.take(k)),
                    #[trigger] dyns@[k],
                ),
        decreases dyns@.len() - j,
    {
        if dyns[j].tag == DT_NEEDED && info.required_shared_lib_count == usize::MAX {
            assert(!update_defined(fold_info(program_headers@, dyns@.take(j as int)), dyns@[j as int]));
            return false;
        }
        assert(dyns@.take(j + 1).drop_last() =~= dyns@.take(j as int));
        assert(dyns@.take(j + 1).last() == dyns@[j as int]);
        assert(update_defined(fold_info(program_headers@, dyns@.take(j as int)), dyns@[j as int]));
        info.update(program_headers.as_slice(), &dyns[j]);
        assert(info == fold_info(program_headers@, dyns@.take(j + 1)));
        j = j + 1;
    }
    assert(dyns@.take(dyns@.len() as int) =~= dyns@);
    true
}

/// The first string recorded at `offset` among `strs`.
pub open spec fn first_string_at(strs: Seq<(usize, Seq<char>)>, offset: usize) -> Option<Seq<char>>
    decreases strs.len(),
{
    if strs.len() == 0 {
        None
    } else if strs[0].0 == offset {
        Some(strs[0].1)
    } else {
        first_string_at(strs.drop_first(), offset)
    }
}

/// The string recorded at `offset` in `table`, if the table holds one there.
pub fn string_at(table: &StringTable, offset: usize) -> (s: Option<String>)
    ensures
        opt_text(s) == first_string_at(strings_view(table.strings@), offset),
{
    let ghost all = strings_view(table.strings@);
    let mut i: usize = 0;
    assert(all.subrange(0, all.len() as int) =~= all);
    while i < table.strings.len()
        invariant
            i <= table.strings@.len(),
            all == strings_view(table.strings@),
            first_string_at(all, offset) == first_string_at(all.subrange(i as int, all.len() as int), offset),
        decreases table.strings@.len() - i,
    {
        let ghost rest = all.subrange(i as int, all.len() as int);
        assert(rest.drop_first() =~= all.subrange(i + 1, all.len() as int));
        assert(rest[0] == all[i as int]);
        if table.strings[i].0 == offset {
            return Some(table.strings[i].1.clone());
        }
        i = i + 1;
    }
    None
}

} // verus!

verus! {

/// `[lowest start, highest end)` of the virtual addresses covered by the
/// loadable segments among `phdrs`; `(usize::MAX, 0)` when there are none.
pub open spec fn spec_load_range(phdrs: Seq<ProgramHeader>) -> (usize, usize)
    decreases phdrs.len(),
{
    if phdrs.len() == 0 {
        (usize::MAX, 0)
    } else {
        let prev = spec_load_range(phdrs.drop_last());
        let ph = phdrs.last();
        if ph.ty != PT_LOAD {
            prev
        } else {
            let head = ph.virtual_address as usize;
            let tail = (ph.virtual_address + ph.memory_size) as u64 as usize;
            (
                if head < prev.0 { head } else { prev.0 },
                if tail > prev.1 { tail } else { prev.1 },
            )
        }
    }
}

/// Every loadable segment lies within the address range computed for the
/// segments: it starts at or after the range's head and ends at or before its tail.
pub proof fn lemma_load_range_covers(phdrs: Seq<ProgramHeader>, i: int)
    requires
        0 <= i < phdrs.len(),
        phdrs[i].ty == PT_LOAD,
    ensures
        spec_load_range(phdrs).0 <= phdrs[i].virtual_address as usize,
        spec_load_range(phdrs).1 >= (phdrs[i].virtual_address + phdrs[i].memory_size) as u64 as usize,
    decreases phdrs.len(),
{
    if i < phdrs.len() - 1 {
        lemma_load_range_covers(phdrs.drop_last(), i);
        assert(phdrs.drop_last()[i] == phdrs[i]);
    }
}

/// The end address of segment `ph`, as the range records it.
pub open spec fn load_end(ph: ProgramHeader) -> usize {
    (ph.virtual_address + ph.memory_size) as u64 as usize
}

/// The range is made of the loadable segments alone: with no loadable
/// segment it is `(usize::MAX, 0)`; otherwise its head is the start address of
/// some loadable segment and its tail the end address of some loadable segment
/// (together with `lemma_load_range_covers`: the lowest start and the highest
/// end among them). Segments of other types, wherever they lie, play no part.
pub proof fn lemma_load_range_attained(phdrs: Seq<ProgramHeader>)
    ensures
        (forall|i: int| 0 <= i < phdrs.len() ==> (#[trigger] phdrs[i]).ty != PT_LOAD)
            ==> spec_load_range(phdrs) == (usize::MAX, 0usize),
        (exists|i: int| 0 <= i < phdrs.len() && (#[trigger] phdrs[i]).ty == PT_LOAD) ==> {
            &&& exists|i: int|
                0 <= i < phdrs.len() && (#[trigger] phdrs[i]).ty == PT_LOAD && spec_load_range(
                    phdrs,
                ).0 == phdrs[i].virtual_address as usize
            &&& exists|j: int|
                0 <= j < phdrs.len() && (#[trigger] phdrs[j]).ty == PT_LOAD && spec_load_range(
                    phdrs,
                ).1 == load_end(phdrs[j])
        },
    decreases phdrs.len(),
{
    if phdrs.len() > 0 {
        let p = phdrs.drop_last();
        let n = phdrs.len() - 1;
        lemma_load_range_attained(p);
        assert forall|i: int| 0 <= i < p.len() implies p[i] == phdrs[i] by {}
        let prev = spec_load_range(p);
        let ph = phdrs.last();
        assert(ph == phdrs[n]);
        if ph.ty != PT_LOAD {
            if exists|i: int| 0 <= i < phdrs.len() && (#[trigger] phdrs[i]).ty == PT_LOAD {
                let i = choose|i: int| 0 <= i < phdrs.len() && (#[trigger] phdrs[i]).ty == PT_LOAD;
                assert(i < n);
                assert(p[i].ty == PT_LOAD);
                let a = choose|a: int| 0 <= a < p.len() && (#[trigger] p[a]).ty == PT_LOAD
                    && prev.0 == p[a].virtual_address as usize;
                let c = choose|c: int| 0 <= c < p.len() && (#[trigger] p[c]).ty == PT_LOAD
                    && prev.1 == load_end(p[c]);
                assert(phdrs[a].ty == PT_LOAD);
                assert(phdrs[c].ty == PT_LOAD);
            } else {
                assert forall|i: int| 0 <= i < p.len() implies (#[trigger] p[i]).ty != PT_LOAD by {
                    assert(phdrs[i].ty != PT_LOAD);
                }
            }
        } else {
            let head = ph.virtual_address as usize;
            let tail = load_end(ph);
            if exists|i: int| 0 <= i < p.len() && (#[trigger] p[i]).ty == PT_LOAD {
                let a = choose|a: int| 0 <= a < p.len() && (#[trigger] p[a]).ty == PT_LOAD
                    && prev.0 == p[a].virtual_address as usize;
                let c = choose|c: int| 0 <= c < p.len() && (#[trigger] p[c]).ty == PT_LOAD
                    && prev.1 == load_end(p[c]);
                assert(phdrs[a].ty == PT_LOAD);
                assert(phdrs[c].ty == PT_LOAD);
                assert(phdrs[n].ty == PT_LOAD);
            } else {
                assert(prev == (usize::MAX, 0usize));
                assert(phdrs[n].ty == PT_LOAD);
            }
        }
    }
}

/// No loadable segment's end address overflows a `u64`.
pub open spec fn load_ends_fit(phdrs: Seq<ProgramHeader>) -> bool {
    forall|i: int|
        0 <= i < phdrs.len() && (#[trigger] phdrs[i]).ty == PT_LOAD ==> phdrs[i].virtual_address
            + phdrs[i].memory_size <= u64::MAX
}

/// The address range the loadable segments of `elf` occupy once loaded, as
/// `(head, tail)`.
pub fn elf_address_range(elf: &Elf) -> (pair: (usize, usize))
    requires
        load_ends_fit(elf.program_headers@),
    ensures
        pair == spec_load_range(elf.program_headers@),
{
    let phdrs = &elf.program_headers;
    let mut pair: (usize, usize) = (usize::MAX, 0);
    let mut i: usize = 0;
    while i < phdrs.len()
        invariant
            i <= phdrs@.len(),
            load_ends_fit(phdrs@),
            pair == spec_load_range(phdrs@.take(i as int)),
        decreases phdrs@.len() - i,
    {
        assert(phdrs@.take(i + 1).drop_last() =~= phdrs@.take(i as int));
        let ph = &phdrs[i];
        if ph.ty == PT_LOAD {
            let segment_head = ph.virtual_address as usize;
            let segment_tail = (ph.virtual_address + ph.memory_size) as usize;
            let lo = if segment_head < pair.0 {
                segment_head
            } else {
                pair.0
            };
            let hi = if segment_tail > pair.1 {
                segment_tail
            } else {
                pair.1
            };
            pair = (lo, hi);
        }
        i = i + 1;
    }
    assert(phdrs@.take(phdrs@.len() as int) =~= phdrs@);
    pair
}

/// The bytes segment `ph` occupies once loaded: its file contents from `src`,
/// then zeros up to its memory size (the `.bss` part).
pub open spec fn spec_segment_image(ph: ProgramHeader, src: Seq<u8>) -> Seq<u8> {
    let off = ph.offset as usize as int;
    let fs = ph.file_size as usize as int;
    let ms = ph.memory_size as usize as int;
    src.subrange(off, off + fs) + Seq::new((ms - fs) as nat, |i: int| 0u8)
}

/// The memory image of a segment has its memory size: its file bytes first,
/// then zeros.
pub proof fn lemma_segment_image_shape(ph: ProgramHeader, src: Seq<u8>)
    requires
        ph.file_size as usize <= ph.memory_size as usize,
        ph.offset as usize + ph.file_size as usize <= src.len(),
    ensures
        spec_segment_image(ph, src).len() == ph.memory_size as usize,
        forall|i: int|
            0 <= i < ph.file_size as usize ==> #[trigger] spec_segment_image(ph, src)[i] == src[ph.offset
                as usize + i],
        forall|i: int|
            ph.file_size as usize <= i < ph.memory_size as usize ==> #[trigger] spec_segment_image(
                ph,
                src,
            )[i] == 0,
{
}

/// The memory image of loadable segment `ph` of the file `src`. The segment's
/// file contents must lie within `src` and fit in its memory size.
pub fn segment_image(ph: &ProgramHeader, src: &Vec<u8>) -> (image: Vec<u8>)
    requires
        ph.file_size as usize <= ph.memory_size as usize,
        ph.offset as usize + ph.file_size as usize <= src@.len(),
    ensures
        image@ == spec_segment_image(*ph, src@),
{
    let offset = ph.offset as usize;
    let file_size = ph.file_size as usize;
    let mem_size = ph.memory_size as usize;
    let _n = src.len();
    let mut image: Vec<u8> = Vec::new();
    let mut i: usize = 0;
    while i < file_size
        invariant
            i <= file_size,
            offset + file_size <= src@.len(),
            _n == src@.len(),
            image@ == src@.subrange(offset as int, offset + i),
        decreases file_size - i,
    {
        image.push(src[offset + i]);
        assert(image@ =~= src@.subrange(offset as int, offset + i + 1));
        i = i + 1;
    }
    let mut k: usize = file_size;
    while k < mem_size
        invariant
            file_size <= k <= mem_size,
            offset + file_size <= src@.len(),
            image@ == src@.subrange(offset as int, offset + file_size) + Seq::new(
                (k - file_size) as nat,
                |j: int| 0u8,
            ),
        decreases mem_size - k,
    {
        image.push(0);
        assert(image@ =~= src@.subrange(offset as int, offset + file_size) + Seq::new(
            (k + 1 - file_size) as nat,
            |j: int| 0u8,
        ));
        k = k + 1;
    }
    image
}

} // verus!
