//! The dynamic section: its entries and the summary the loader keeps of them.

use vstd::prelude::*;
use vstd::slice::slice_subrange;
use crate::bytes::{le_at, read_le_u64};
use crate::elf::program_header::{PT_DYNAMIC, PT_LOAD, ProgramHeader};
use crate::elf::strtab::region_fits;
use crate::error::Rslt;

verus! {

/// No lazy binding for this object.
pub const DF_BIND_NOW: u64 = 0x0000_0008;
/// Object is a Position Independent Executable (PIE).
pub const DF_EXTEND_PIE: u64 = 0x0800_0000;
/// Set RTLD_NOW for this object.
pub const DF_EXTEND_NOW: u64 = 0x0000_0001;
/// Object may use DF_ORIGIN.
pub const DF_ORIGIN: u64 = 0x0000_0001;
/// Symbol resolutions starts here.
pub const DF_SYMBOLIC: u64 = 0x0000_0002;
/// Object contains text relocations.
pub const DF_TEXTREL: u64 = 0x0000_0004;
/// Module uses the static TLS model.
pub const DF_STATIC_TLS: u64 = 0x0000_0010;

/// Marks end of dynamic section
pub const DT_NULL: u64 = 0;
/// Name of needed library
pub const DT_NEEDED: u64 = 1;
/// Size in bytes of PLT relocs
pub const DT_PLTRELSZ: u64 = 2;
/// Processor defined value
pub const DT_PLTGOT: u64 = 3;
/// Address of symbol hash table
pub const DT_HASH: u64 = 4;
/// Address of string table
pub const DT_STRTAB: u64 = 5;
/// Address of symbol table
pub const DT_SYMTAB: u64 = 6;
/// Address of Rela relocs
pub const DT_RELA: u64 = 7;
/// Total size of Rela relocs
pub const DT_RELASZ: u64 = 8;
/// Size of one Rela reloc
pub const DT_RELAENT: u64 = 9;
/// Size of string table
pub const DT_STRSZ: u64 = 10;
/// Size of one symbol table entry
pub const DT_SYMENT: u64 = 11;
/// Address of init function
pub const DT_INIT: u64 = 12;
/// Address of termination function
pub const DT_FINI: u64 = 13;
/// Name of shared object
pub const DT_SONAME: u64 = 14;
/// Library search path (deprecated)
pub const DT_RPATH: u64 = 15;
/// Start symbol search here
pub const DT_SYMBOLIC: u64 = 16;
/// Address of Rel relocs
pub const DT_REL: u64 = 17;
/// Total size of Rel relocs
pub const DT_RELSZ: u64 = 18;
/// Size of one Rel reloc
pub const DT_RELENT: u64 = 19;
/// Type of reloc in PLT
pub const DT_PLTREL: u64 = 20;
/// For debugging; unspecified
pub const DT_DEBUG: u64 = 21;
/// Reloc might modify .text
pub const DT_TEXTREL: u64 = 22;
/// Address of PLT relocs
pub const DT_JMPREL: u64 = 23;
/// Process relocations of object
pub const DT_BIND_NOW: u64 = 24;
/// Array with addresses of init fct
pub const DT_INIT_ARRAY: u64 = 25;
/// Array with addresses of fini fct
pub const DT_FINI_ARRAY: u64 = 26;
/// Size in bytes of DT_INIT_ARRAY
pub const DT_INIT_ARRAYSZ: u64 = 27;
/// Size in bytes of DT_FINI_ARRAY
pub const DT_FINI_ARRAYSZ: u64 = 28;
/// Library search path
pub const DT_RUNPATH: u64 = 29;
/// Flags for the object being loaded
pub const DT_FLAGS: u64 = 30;
/// Start of encoded range
pub const DT_ENCODING: u64 = 32;
/// Array with addresses of preinit fct
pub const DT_PREINIT_ARRAY: u64 = 32;
/// size in bytes of DT_PREINIT_ARRAY
pub const DT_PREINIT_ARRAYSZ: u64 = 33;
/// Number used
pub const DT_NUM: u64 = 34;
/// Start of OS-specific
pub const DT_LOOS: u64 = 0x6000_000d;
/// End of OS-specific
pub const DT_HIOS: u64 = 0x6fff_f000;
/// Start of processor-specific
pub const DT_LOPROC: u64 = 0x7000_0000;
/// End of processor-specific
pub const DT_HIPROC: u64 = 0x7fff_ffff;
/// GNU-style hash table
pub const DT_GNU_HASH: u64 = 0x6fff_fef5;
/// The versioning entry types. The next are defined as part of the GNU extension
pub const DT_VERSYM: u64 = 0x6fff_fff0;
pub const DT_RELACOUNT: u64 = 0x6fff_fff9;
pub const DT_RELCOUNT: u64 = 0x6fff_fffa;
/// State flags, see DF_1_* below
pub const DT_FLAGS_1: u64 = 0x6fff_fffb;
/// Address of version definition table
pub const DT_VERDEF: u64 = 0x6fff_fffc;
/// Number of version definitions
pub const DT_VERDEFNUM: u64 = 0x6fff_fffd;
/// Address of table with needed versions
pub const DT_VERNEED: u64 = 0x6fff_fffe;
/// Number of needed versions
pub const DT_VERNEEDNUM: u64 = 0x6fff_ffff;

/// Size of one ELF64 dynamic entry (a tag and a value, 8 bytes each).
pub const SIZE_OF_DYN_64: usize = 16;

/// One dynamic entry.
#[derive(PartialEq, Eq, Structural, Clone, Copy, Debug)]
pub struct Dyn {
    pub tag: u64,
    pub val: u64,
}

/// The dynamic entry whose 16 bytes start at `b[off]`.
pub open spec fn spec_dyn(b: Seq<u8>, off: int) -> Dyn {
    Dyn { tag: le_at(b, off, 8) as u64, val: le_at(b, off + 8, 8) as u64 }
}

impl Dyn {
    /// Reads one entry at `*offset` and advances past it.
    pub fn parse(bytes: &[u8], offset: &mut usize) -> (d: Dyn)
        requires
            *old(offset) + 16 <= bytes@.len(),
        ensures
            d == spec_dyn(bytes@, *old(offset) as int),
            *final(offset) == *old(offset) + 16,
    {
        let tag = read_le_u64(offset, bytes);
        let val = read_le_u64(offset, bytes);
        Dyn { tag, val }
    }
}

/// The file offset that virtual `address` maps to through the first loadable
/// segment containing it; `None` when no loadable segment contains it, or when
/// the offset of the first one that does overflows.
pub open spec fn spec_vm_to_offset(phdrs: Seq<ProgramHeader>, address: u64) -> Option<u64>
    decreases phdrs.len(),
{
    if phdrs.len() == 0 {
        None
    } else {
        let ph = phdrs[0];
        if ph.ty == PT_LOAD && address >= ph.virtual_address && address - ph.virtual_address
            < ph.memory_size {
            let off = ph.offset + (address - ph.virtual_address);
            if off <= u64::MAX {
                Some(off as u64)
            } else {
                None
            }
        } else {
            spec_vm_to_offset(phdrs.drop_first(), address)
        }
    }
}

/// Translates a virtual address to a file offset through the loadable segments.
pub fn vm_to_offset(program_headers: &[ProgramHeader], address: u64) -> (r: Option<u64>)
    ensures
        r == spec_vm_to_offset(program_headers@, address),
{
    let mut i: usize = 0;
    assert(program_headers@.subrange(0, program_headers@.len() as int) =~= program_headers@);
    while i < program_headers.len()
        invariant
            i <= program_headers@.len(),
            spec_vm_to_offset(program_headers@, address) == spec_vm_to_offset(
                program_headers@.subrange(i as int, program_headers@.len() as int),
                address,
            ),
        decreases program_headers@.len() - i,
    {
        let ghost rest = program_headers@.subrange(i as int, program_headers@.len() as int);
        assert(rest.drop_first() =~= program_headers@.subrange(
            i + 1,
            program_headers@.len() as int,
        ));
        let ph = &program_headers[i];
        if ph.ty == PT_LOAD && address >= ph.virtual_address {
            let offset = address - ph.virtual_address;
            if offset < ph.memory_size {
                return ph.offset.checked_add(offset);
            }
        }
        i = i + 1;
    }
    proof {
        assert(program_headers@.subrange(i as int, program_headers@.len() as int).len() == 0);
    }
    None
}

/// The summary of the dynamic entries that the loader keeps.
#[derive(PartialEq, Eq, Structural, Clone, Copy, Debug)]
pub struct DynamicInfo {
    /// An addend is an extra constant value used in a relocation to help compute the correct final
    /// address. It adjusts the value that gets written into the relocated memory.
    pub relocation_addend: usize,
    pub relocation_addend_size: usize,
    pub relocation_addend_entry: u64,
    pub relocation_addend_entry_count: usize,
    pub relocation_addend_section_address: usize,
    pub relocation: usize,
    pub relocation_size: usize,
    pub relocation_entry: u64,
    pub relocation_entry_count: usize,
    pub gnu_hash: Option<u64>,
    pub hash: Option<u64>,
    pub string_table_address: usize,
    pub string_table_size: usize,
    pub symbol_table: usize,
    pub symbol_table_entry: usize,
    pub plt_got_address: Option<u64>,
    pub plt_relocation_size: usize,
    pub plt_relocation_type: u64,
    pub jmp_relocation_address: usize,
    pub virsion_definition_table_address: u64,
    pub version_definition_count: u64,
    pub version_need_table_address: u64,
    pub version_need_count: u64,
    pub version_symbol_table_address: u64,
    pub init_fn_address: u64,
    pub finalization_fn_address: u64,
    pub init_fn_array_address: u64,
    pub init_fn_array_len: usize,
    pub finalization_fn_array_address: u64,
    pub finalization_fn_array_len: usize,
    pub required_shared_lib_count: usize,
    pub flags: u64,
    pub extended_flags: u64,
    pub shared_object_name_offset: usize,
    pub text_section_relocation: bool,
}

/// The summary before any entry is seen: every number zero, every option empty.
pub open spec fn empty_info() -> DynamicInfo {
    DynamicInfo {
        relocation_addend: 0,
        relocation_addend_size: 0,
        relocation_addend_entry: 0,
        relocation_addend_entry_count: 0,
        relocation_addend_section_address: 0,
        relocation: 0,
        relocation_size: 0,
        relocation_entry: 0,
        relocation_entry_count: 0,
        gnu_hash: None,
        hash: None,
        string_table_address: 0,
        string_table_size: 0,
        symbol_table: 0,
        symbol_table_entry: 0,
        plt_got_address: None,
        plt_relocation_size: 0,
        plt_relocation_type: 0,
        jmp_relocation_address: 0,
        virsion_definition_table_address: 0,
        version_definition_count: 0,
        version_need_table_address: 0,
        version_need_count: 0,
        version_symbol_table_address: 0,
        init_fn_address: 0,
        finalization_fn_address: 0,
        init_fn_array_address: 0,
        init_fn_array_len: 0,
        finalization_fn_array_address: 0,
        finalization_fn_array_len: 0,
        required_shared_lib_count: 0,
        flags: 0,
        extended_flags: 0,
        shared_object_name_offset: 0,
        text_section_relocation: false,
    }
}

/// `vm_to_offset`, or zero when the address is not mapped.
pub open spec fn offset_or_zero(phdrs: Seq<ProgramHeader>, address: u64) -> u64 {
    match spec_vm_to_offset(phdrs, address) {
        Some(o) => o,
        None => 0,
    }
}

/// The summary after entry `d`: each known tag records its value (addresses
/// translated to file offsets), `DT_NEEDED` counts one more needed shared
/// library, `DT_TEXTREL` sets the text relocation flag, and other tags change
/// nothing.
#[verifier::opaque]
pub open spec fn spec_update(info: DynamicInfo, phdrs: Seq<ProgramHeader>, d: Dyn) -> DynamicInfo {
    let t = d.tag;
    let v = d.val;
    if t == DT_RELA {
        DynamicInfo { relocation_addend: offset_or_zero(phdrs, v) as usize, ..info }
    } else if t == DT_RELASZ {
        DynamicInfo { relocation_addend_size: v as usize, ..info }
    } else if t == DT_RELAENT {
        DynamicInfo { relocation_addend_entry: v, ..info }
    } else if t == DT_RELACOUNT {
        DynamicInfo { relocation_addend_entry_count: v as usize, ..info }
    } else if t == DT_REL {
        DynamicInfo { relocation: offset_or_zero(phdrs, v) as usize, ..info }
    } else if t == DT_RELSZ {
        DynamicInfo { relocation_size: v as usize, ..info }
    } else if t == DT_RELENT {
        DynamicInfo { relocation_entry: v, ..info }
    } else if t == DT_RELCOUNT {
        DynamicInfo { relocation_entry_count: v as usize, ..info }
    } else if t == DT_GNU_HASH {
        DynamicInfo { gnu_hash: spec_vm_to_offset(phdrs, v), ..info }
    } else if t == DT_HASH {
        DynamicInfo { hash: spec_vm_to_offset(phdrs, v), ..info }
    } else if t == DT_STRTAB {
        DynamicInfo { string_table_address: offset_or_zero(phdrs, v) as usize, ..info }
    } else if t == DT_STRSZ {
        DynamicInfo { string_table_size: v as usize, ..info }
    } else if t == DT_SYMTAB {
        DynamicInfo { symbol_table: offset_or_zero(phdrs, v) as usize, ..info }
    } else if t == DT_SYMENT {
        DynamicInfo { symbol_table_entry: v as usize, ..info }
    } else if t == DT_PLTGOT {
        DynamicInfo { plt_got_address: spec_vm_to_offset(phdrs, v), ..info }
    } else if t == DT_PLTRELSZ {
        DynamicInfo { plt_relocation_size: v as usize, ..info }
    } else if t == DT_PLTREL {
        DynamicInfo { plt_relocation_type: v, ..info }
    } else if t == DT_JMPREL {
        DynamicInfo { jmp_relocation_address: offset_or_zero(phdrs, v) as usize, ..info }
    } else if t == DT_VERDEF {
        DynamicInfo { virsion_definition_table_address: offset_or_zero(phdrs, v), ..info }
    } else if t == DT_VERDEFNUM {
        DynamicInfo { version_definition_count: v, ..info }
    } else if t == DT_VERNEED {
        DynamicInfo { version_need_table_address: offset_or_zero(phdrs, v), ..info }
    } else if t == DT_VERNEEDNUM {
        DynamicInfo { version_need_count: v, ..info }
    } else if t == DT_VERSYM {
        DynamicInfo { version_symbol_table_address: offset_or_zero(phdrs, v), ..info }
    } else if t == DT_INIT {
        DynamicInfo { init_fn_address: offset_or_zero(phdrs, v), ..info }
    } else if t == DT_FINI {
        DynamicInfo { finalization_fn_address: offset_or_zero(phdrs, v), ..info }
    } else if t == DT_INIT_ARRAY {
        DynamicInfo { init_fn_array_address: offset_or_zero(phdrs, v), ..info }
    } else if t == DT_INIT_ARRAYSZ {
        DynamicInfo { init_fn_array_len: v as usize, ..info }
    } else if t == DT_FINI_ARRAY {
        DynamicInfo { finalization_fn_array_address: offset_or_zero(phdrs, v), ..info }
    } else if t == DT_FINI_ARRAYSZ {
        DynamicInfo { finalization_fn_array_len: v as usize, ..info }
    } else if t == DT_NEEDED {
        DynamicInfo { required_shared_lib_count: (info.required_shared_lib_count + 1) as usize, ..info }
    } else if t == DT_FLAGS {
        DynamicInfo { flags: v, ..info }
    } else if t == DT_FLAGS_1 {
        DynamicInfo { extended_flags: v, ..info }
    } else if t == DT_SONAME {
        DynamicInfo { shared_object_name_offset: v as usize, ..info }
    } else if t == DT_TEXTREL {
        DynamicInfo { text_section_relocation: true, ..info }
    } else {
        info
    }
}

/// The tags that `update` records.
pub open spec fn handled_tag(t: u64) -> bool {
    t == DT_RELA || t == DT_RELASZ || t == DT_RELAENT || t == DT_RELACOUNT || t == DT_REL || t
        == DT_RELSZ || t == DT_RELENT || t == DT_RELCOUNT || t == DT_GNU_HASH || t == DT_HASH || t
        == DT_STRTAB || t == DT_STRSZ || t == DT_SYMTAB || t == DT_SYMENT || t == DT_PLTGOT || t
        == DT_PLTRELSZ || t == DT_PLTREL || t == DT_JMPREL || t == DT_VERDEF || t == DT_VERDEFNUM
        || t == DT_VERNEED || t == DT_VERNEEDNUM || t == DT_VERSYM || t == DT_INIT || t == DT_FINI
        || t == DT_INIT_ARRAY || t == DT_INIT_ARRAYSZ || t == DT_FINI_ARRAY || t == DT_FINI_ARRAYSZ
        || t == DT_NEEDED || t == DT_FLAGS || t == DT_FLAGS_1 || t == DT_SONAME || t == DT_TEXTREL
}

/// An entry whose tag `update` does not record (such as `DT_NULL` or
/// `DT_DEBUG`) leaves the summary as it is.
pub proof fn lemma_update_unknown_tag(info: DynamicInfo, phdrs: Seq<ProgramHeader>, d: Dyn)
    requires
        !handled_tag(d.tag),
    ensures
        spec_update(info, phdrs, d) == info,
{
    reveal(spec_update);
}

/// Loadable segment `ph` holds the virtual address `a`.
pub open spec fn maps_address(ph: ProgramHeader, a: u64) -> bool {
    ph.ty == PT_LOAD && ph.virtual_address <= a && a - ph.virtual_address < ph.memory_size
}

/// The file offset at which segment `ph` holds virtual address `a`.
pub open spec fn file_offset_in(ph: ProgramHeader, a: u64) -> int {
    ph.offset + (a - ph.virtual_address)
}

proof fn lemma_first_mapping(phdrs: Seq<ProgramHeader>, a: u64, i: int)
    requires
        0 <= i < phdrs.len(),
        maps_address(phdrs[i], a),
        forall|j: int| 0 <= j < i ==> !maps_address(#[trigger] phdrs[j], a),
    ensures
        file_offset_in(phdrs[i], a) <= u64::MAX ==> spec_vm_to_offset(phdrs, a) == Some(
            file_offset_in(phdrs[i], a) as u64,
        ),
        file_offset_in(phdrs[i], a) > u64::MAX ==> spec_vm_to_offset(phdrs, a) is None,
    decreases i,
{
    if i > 0 {
        assert(!maps_address(phdrs[0], a));
        assert forall|j: int| 0 <= j < i - 1 implies !maps_address(
            #[trigger] phdrs.drop_first()[j],
            a,
        ) by {
            assert(phdrs.drop_first()[j] == phdrs[j + 1]);
        }
        lemma_first_mapping(phdrs.drop_first(), a, i - 1);
    }
}

proof fn lemma_no_mapping(phdrs: Seq<ProgramHeader>, a: u64)
    requires
        forall|j: int| 0 <= j < phdrs.len() ==> !maps_address(#[trigger] phdrs[j], a),
    ensures
        spec_vm_to_offset(phdrs, a) is None,
    decreases phdrs.len(),
{
    if phdrs.len() > 0 {
        assert(!maps_address(phdrs[0], a));
        assert forall|j: int| 0 <= j < phdrs.len() - 1 implies !maps_address(
            #[trigger] phdrs.drop_first()[j],
            a,
        ) by {
            assert(phdrs.drop_first()[j] == phdrs[j + 1]);
        }
        lemma_no_mapping(phdrs.drop_first(), a);
    }
}

/// Every entry that names a table or function address records the file offset
/// of that address: when loadable segment `i` is the first that holds the
/// address, the recorded value is segment `i`'s file offset plus the distance
/// of the address from the segment's start.
pub proof fn lemma_addresses_become_file_offsets(
    info: DynamicInfo,
    phdrs: Seq<ProgramHeader>,
    d: Dyn,
    i: int,
)
    requires
        0 <= i < phdrs.len(),
        maps_address(phdrs[i], d.val),
        forall|j: int| 0 <= j < i ==> !maps_address(#[trigger] phdrs[j], d.val),
        file_offset_in(phdrs[i], d.val) <= u64::MAX,
    ensures
        ({
            let o = file_offset_in(phdrs[i], d.val) as u64;
            let r = spec_update(info, phdrs, d);
            &&& d.tag == DT_STRTAB ==> r.string_table_address == o as usize
            &&& d.tag == DT_SYMTAB ==> r.symbol_table == o as usize
            &&& d.tag == DT_RELA ==> r.relocation_addend == o as usize
            &&& d.tag == DT_REL ==> r.relocation == o as usize
            &&& d.tag == DT_JMPREL ==> r.jmp_relocation_address == o as usize
            &&& d.tag == DT_GNU_HASH ==> r.gnu_hash == Some(o)
            &&& d.tag == DT_HASH ==> r.hash == Some(o)
            &&& d.tag == DT_PLTGOT ==> r.plt_got_address == Some(o)
            &&& d.tag == DT_VERDEF ==> r.virsion_definition_table_address == o
            &&& d.tag == DT_VERNEED ==> r.version_need_table_address == o
            &&& d.tag == DT_VERSYM ==> r.version_symbol_table_address == o
            &&& d.tag == DT_INIT ==> r.init_fn_address == o
            &&& d.tag == DT_FINI ==> r.finalization_fn_address == o
            &&& d.tag == DT_INIT_ARRAY ==> r.init_fn_array_address == o
            &&& d.tag == DT_FINI_ARRAY ==> r.finalization_fn_array_address == o
        }),
{
    reveal(spec_update);
    lemma_first_mapping(phdrs, d.val, i);
}

/// An address that no loadable segment holds is recorded as zero (or as no
/// table, for the optional ones).
pub proof fn lemma_unmapped_addresses_become_zero(info: DynamicInfo, phdrs: Seq<ProgramHeader>, d: Dyn)
    requires
        forall|j: int| 0 <= j < phdrs.len() ==> !maps_address(#[trigger] phdrs[j], d.val),
    ensures
        ({
            let r = spec_update(info, phdrs, d);
            &&& d.tag == DT_STRTAB ==> r.string_table_address == 0
            &&& d.tag == DT_SYMTAB ==> r.symbol_table == 0
            &&& d.tag == DT_RELA ==> r.relocation_addend == 0
            &&& d.tag == DT_REL ==> r.relocation == 0
            &&& d.tag == DT_JMPREL ==> r.jmp_relocation_address == 0
            &&& d.tag == DT_GNU_HASH ==> r.gnu_hash is None
            &&& d.tag == DT_HASH ==> r.hash is None
            &&& d.tag == DT_PLTGOT ==> r.plt_got_address is None
            &&& d.tag == DT_VERDEF ==> r.virsion_definition_table_address == 0
            &&& d.tag == DT_VERNEED ==> r.version_need_table_address == 0
            &&& d.tag == DT_VERSYM ==> r.version_symbol_table_address == 0
            &&& d.tag == DT_INIT ==> r.init_fn_address == 0
            &&& d.tag == DT_FINI ==> r.finalization_fn_address == 0
            &&& d.tag == DT_INIT_ARRAY ==> r.init_fn_array_address == 0
            &&& d.tag == DT_FINI_ARRAY ==> r.finalization_fn_array_address == 0
        }),
{
    reveal(spec_update);
    lemma_no_mapping(phdrs, d.val);
}

/// `update` is defined: a needed-library entry must not push the count past `usize::MAX`.
pub open spec fn update_defined(info: DynamicInfo, d: Dyn) -> bool {
    d.tag == DT_NEEDED ==> info.required_shared_lib_count < usize::MAX
}

fn offset_or_zero_exec(phdrs: &[ProgramHeader], address: u64) -> (o: u64)
    ensures
        o == offset_or_zero(phdrs@, address),
{
    match vm_to_offset(phdrs, address) {
        Some(o) => o,
        None => 0,
    }
}

impl DynamicInfo {
    /// The summary before any entry is seen.
    pub fn default() -> (info: DynamicInfo)
        ensures
            info == empty_info(),
    {
        DynamicInfo {
            relocation_addend: 0,
            relocation_addend_size: 0,
            relocation_addend_entry: 0,
            relocation_addend_entry_count: 0,
            relocation_addend_section_address: 0,
            relocation: 0,
            relocation_size: 0,
            relocation_entry: 0,
            relocation_entry_count: 0,
            gnu_hash: None,
            hash: None,
            string_table_address: 0,
            string_table_size: 0,
            symbol_table: 0,
            symbol_table_entry: 0,
            plt_got_address: None,
            plt_relocation_size: 0,
            plt_relocation_type: 0,
            jmp_relocation_address: 0,
            virsion_definition_table_address: 0,
            version_definition_count: 0,
            version_need_table_address: 0,
            version_need_count: 0,
            version_symbol_table_address: 0,
            init_fn_address: 0,
            finalization_fn_address: 0,
            init_fn_array_address: 0,
            init_fn_array_len: 0,
            finalization_fn_array_address: 0,
            finalization_fn_array_len: 0,
            required_shared_lib_count: 0,
            flags: 0,
            extended_flags: 0,
            shared_object_name_offset: 0,
            text_section_relocation: false,
        }
    }

    /// Records dynamic entry `dynamic` in the summary.
    pub fn update(&mut self, phdrs: &[ProgramHeader], dynamic: &Dyn)
        requires
            update_defined(*old(self), *dynamic),
        ensures
            *final(self) == spec_update(*old(self), phdrs@, *dynamic),
    {
        reveal(spec_update);
        let t = dynamic.tag;
        let v = dynamic.val;
        if t == DT_RELA {
            self.relocation_addend = offset_or_zero_exec(phdrs, v) as usize;
        } else if t == DT_RELASZ {
            self.relocation_addend_size = v as usize;
        } else if t == DT_RELAENT {
            self.relocation_addend_entry = v;
        } else if t == DT_RELACOUNT {
            self.relocation_addend_entry_count = v as usize;
        } else if t == DT_REL {
            self.relocation = offset_or_zero_exec(phdrs, v) as usize;
        } else if t == DT_RELSZ {
            self.relocation_size = v as usize;
        } else if t == DT_RELENT {
            self.relocation_entry = v;
        } else if t == DT_RELCOUNT {
            self.relocation_entry_count = v as usize;
        } else if t == DT_GNU_HASH {
            self.gnu_hash = vm_to_offset(phdrs, v);
        } else if t == DT_HASH {
            self.hash = vm_to_offset(phdrs, v);
        } else if t == DT_STRTAB {
            self.string_table_address = offset_or_zero_exec(phdrs, v) as usize;
        } else if t == DT_STRSZ {
            self.string_table_size = v as usize;
        } else if t == DT_SYMTAB {
            self.symbol_table = offset_or_zero_exec(phdrs, v) as usize;
        } else if t == DT_SYMENT {
            self.symbol_table_entry = v as usize;
        } else if t == DT_PLTGOT {
            self.plt_got_address = vm_to_offset(phdrs, v);
        } else if t == DT_PLTRELSZ {
            self.plt_relocation_size = v as usize;
        } else if t == DT_PLTREL {
            self.plt_relocation_type = v;
        } else if t == DT_JMPREL {
            self.jmp_relocation_address = offset_or_zero_exec(phdrs, v) as usize;
        } else if t == DT_VERDEF {
            self.virsion_definition_table_address = offset_or_zero_exec(phdrs, v);
        } else if t == DT_VERDEFNUM {
            self.version_definition_count = v;
        } else if t == DT_VERNEED {
            self.version_need_table_address = offset_or_zero_exec(phdrs, v);
        } else if t == DT_VERNEEDNUM {
            self.version_need_count = v;
        } else if t == DT_VERSYM {
            self.version_symbol_table_address = offset_or_zero_exec(phdrs, v);
        } else if t == DT_INIT {
            self.init_fn_address = offset_or_zero_exec(phdrs, v);
        } else if t == DT_FINI {
            self.finalization_fn_address = offset_or_zero_exec(phdrs, v);
        } else if t == DT_INIT_ARRAY {
            self.init_fn_array_address = offset_or_zero_exec(phdrs, v);
        } else if t == DT_INIT_ARRAYSZ {
            self.init_fn_array_len = v as usize;
        } else if t == DT_FINI_ARRAY {
            self.finalization_fn_array_address = offset_or_zero_exec(phdrs, v);
        } else if t == DT_FINI_ARRAYSZ {
            self.finalization_fn_array_len = v as usize;
        } else if t == DT_NEEDED {
            self.required_shared_lib_count = self.required_shared_lib_count + 1;
        } else if t == DT_FLAGS {
            self.flags = v;
        } else if t == DT_FLAGS_1 {
            self.extended_flags = v;
        } else if t == DT_SONAME {
            self.shared_object_name_offset = v as usize;
        } else if t == DT_TEXTREL {
            self.text_section_relocation = true;
        }
    }
}

} // verus!

verus! {

/// The dynamic section: its entries, up to and including the terminating null
/// entry, and their summary.
pub struct Dynamic {
    pub dyns: Vec<Dyn>,
    pub info: DynamicInfo,
}

/// Index of the first program header of type `ty`.
pub open spec fn first_of_type(phdrs: Seq<ProgramHeader>, ty: u32) -> Option<int>
    decreases phdrs.len(),
{
    if phdrs.len() == 0 {
        None
    } else if phdrs[0].ty == ty {
        Some(0)
    } else {
        match first_of_type(phdrs.drop_first(), ty) {
            Some(k) => Some(k + 1),
            None => None,
        }
    }
}

pub proof fn lemma_first_of_type(phdrs: Seq<ProgramHeader>, ty: u32, i: int)
    requires
        0 <= i <= phdrs.len(),
        forall|j: int| 0 <= j < i ==> phdrs[j].ty != ty,
    ensures
        i < phdrs.len() && phdrs[i].ty == ty ==> first_of_type(phdrs, ty) == Some(i),
        i == phdrs.len() ==> first_of_type(phdrs, ty) is None,
    decreases i,
{
    if i > 0 {
        lemma_first_of_type(phdrs.drop_first(), ty, i - 1);
    }
}

/// The entries read from `b`, starting with entry `k`, stopping after the first
/// null entry or before entry `count`.
pub open spec fn spec_dyns(b: Seq<u8>, count: nat, k: nat) -> Seq<Dyn>
    decreases count - k,
{
    if k >= count {
        seq![]
    } else {
        let d = spec_dyn(b, 16 * k as int);
        if d.tag == DT_NULL {
            seq![d]
        } else {
            seq![d] + spec_dyns(b, count, k + 1)
        }
    }
}

/// The summary of `dyns`, recorded in order into an empty summary.
pub open spec fn fold_info(phdrs: Seq<ProgramHeader>, dyns: Seq<Dyn>) -> DynamicInfo
    decreases dyns.len(),
{
    if dyns.len() == 0 {
        empty_info()
    } else {
        spec_update(fold_info(phdrs, dyns.drop_last()), phdrs, dyns.last())
    }
}

/// Recording `dyns` in order never overflows the count of needed libraries.
pub open spec fn fold_defined(phdrs: Seq<ProgramHeader>, dyns: Seq<Dyn>) -> bool {
    forall|i: int| 0 <= i < dyns.len() ==> update_defined(fold_info(phdrs, dyns.take(i)), #[trigger] dyns[i])
}

/// The bytes of the dynamic segment `ph` in `binary`.
pub open spec fn segment_bytes(binary: Seq<u8>, ph: ProgramHeader) -> Seq<u8> {
    if ph.file_size as usize > 0 {
        binary.subrange(ph.offset as usize as int, ph.offset as usize + ph.file_size as usize)
    } else {
        seq![]
    }
}

/// The entries of the dynamic segment `ph` of `binary`.
pub open spec fn segment_dyns(binary: Seq<u8>, ph: ProgramHeader) -> Seq<Dyn> {
    spec_dyns(segment_bytes(binary, ph), (ph.file_size as usize / 16) as nat, 0)
}

/// `Dynamic::parse` is defined: the first dynamic segment lies within the file
/// and its entries can be recorded without overflow.
pub open spec fn dynamic_parse_defined(binary: Seq<u8>, phdrs: Seq<ProgramHeader>) -> bool {
    match first_of_type(phdrs, PT_DYNAMIC) {
        None => true,
        Some(i) => {
            let ph = phdrs[i];
            &&& (ph.file_size as usize > 0 ==> region_fits(
                ph.offset as usize as int,
                ph.file_size as usize as int,
                binary.len() as int,
            ))
            &&& fold_defined(phdrs, segment_dyns(binary, ph))
        },
    }
}

impl Dynamic {
    /// Reads the dynamic section described by the first `PT_DYNAMIC` program
    /// header, if any, and summarises its entries.
    #[verifier::rlimit(40)]
    pub fn parse(binary: &Vec<u8>, program_headers: &Vec<ProgramHeader>) -> (r: Rslt<
        Option<Dynamic>,
    >)
        requires
            dynamic_parse_defined(binary@, program_headers@),
        ensures
            match first_of_type(program_headers@, PT_DYNAMIC) {
                None => r matches Ok(None),
                Some(i) => r matches Ok(Some(d)) && d.dyns@ == segment_dyns(
                    binary@,
                    program_headers@[i],
                ) && d.info == fold_info(program_headers@, d.dyns@),
            },
    {
        let mut i: usize = 0;
        while i < program_headers.len()
            invariant
                i <= program_headers@.len(),
                dynamic_parse_defined(binary@, program_headers@),
                forall|j: int| 0 <= j < i ==> program_headers@[j].ty != PT_DYNAMIC,
            decreases program_headers@.len() - i,
        {
            if program_headers[i].ty == PT_DYNAMIC {
                proof {
                    lemma_first_of_type(program_headers@, PT_DYNAMIC, i as int);
                }
                let program_header = &program_headers[i];
                let offset = program_header.offset as usize;
                let file_size = program_header.file_size as usize;
                let _n = binary.len();
                let bytes: &[u8] = if file_size > 0 {
                    slice_subrange(binary.as_slice(), offset, offset + file_size)
                } else {
                    &[]
                };
                assert(bytes@ == segment_bytes(binary@, *program_header));
                let count = file_size / SIZE_OF_DYN_64;
                let dyns = Dynamic::read_entries(bytes, count);
                let mut info = DynamicInfo::default();
                let mut j: usize = 0;
                while j < dyns.len()
                    invariant
                        j <= dyns@.len(),
                        fold_defined(program_headers@, dyns@),
                        info == fold_info(program_headers@, dyns@.take(j as int)),
                    decreases dyns@.len() - j,
                {
                    assert(dyns@.take(j + 1).drop_last() =~= dyns@.take(j as int));
                    info.update(program_headers.as_slice(), &dyns[j]);
                    j = j + 1;
                }
                assert(dyns@.take(dyns@.len() as int) =~= dyns@);
                return Ok(Some(Dynamic { dyns, info }));
            }
            i = i + 1;
        }
        proof {
            lemma_first_of_type(program_headers@, PT_DYNAMIC, i as int);
        }
        Ok(None)
    }

    /// Reads at most `count` entries from `bytes`, stopping after a null entry.
    pub(crate) fn read_entries(bytes: &[u8], count: usize) -> (dyns: Vec<Dyn>)
        requires
            count * 16 <= bytes@.len(),
        ensures
            dyns@ == spec_dyns(bytes@, count as nat, 0),
    {
        let mut dyns: Vec<Dyn> = Vec::new();
        let mut offset: usize = 0;
        let mut k: usize = 0;
        while k < count
            invariant
                count * 16 <= bytes@.len(),
                k <= count,
                offset == 16 * k,
                dyns@ + spec_dyns(bytes@, count as nat, k as nat) == spec_dyns(
                    bytes@,
                    count as nat,
                    0,
                ),
            decreases count - k,
        {
            let dynamic = Dyn::parse(bytes, &mut offset);
            let tag = dynamic.tag;
            let ghost before = dyns@;
            dyns.push(dynamic);
            if tag == DT_NULL {
                assert(spec_dyns(bytes@, count as nat, k as nat) == seq![dynamic]);
                assert(dyns@ =~= before + seq![dynamic]);
                return dyns;
            }
            assert(spec_dyns(bytes@, count as nat, k as nat) == seq![dynamic] + spec_dyns(
                bytes@,
                count as nat,
                (k + 1) as nat,
            ));
            assert(before + (seq![dynamic] + spec_dyns(bytes@, count as nat, (k + 1) as nat))
                =~= dyns@ + spec_dyns(bytes@, count as nat, (k + 1) as nat));
            k = k + 1;
        }
        assert(dyns@ + seq![] =~= dyns@);
        dyns
    }
}

} // verus!
