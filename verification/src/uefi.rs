//! UEFI data types the loader exchanges with the firmware, and the small
//! computations on them: GUID text, status codes, memory types, UTF-16 paths.

use vstd::prelude::*;
use crate::error::{OsoLoaderError, Rslt};
use crate::text::{chars_of, message_with_number};
use crate::guid::Guid;

verus! {

/// Size of a UEFI page.
pub const PAGE_SIZE: usize = 4096;

/// Number of pages needed to hold `size` bytes, as the loader allocates them
/// (always one page more than the whole pages that `size` fills).
pub fn required_pages(size: usize) -> (pages: usize)
    ensures
        pages == size as int / PAGE_SIZE as int + 1,
{
    size / PAGE_SIZE + 1
}

/// The pages counted for `size` bytes hold all of them.
pub proof fn lemma_required_pages_cover(size: usize)
    ensures
        (size as int / PAGE_SIZE as int + 1) * PAGE_SIZE as int > size,
{
    assert((size as int / 4096 + 1) * 4096 > size) by (nonlinear_arith);
}

/// The operation completed successfully.
pub const EFI_SUCCESS: usize = 0;

/// A UEFI status code.
#[derive(PartialEq, Eq, Structural, Clone, Copy, Debug)]
pub struct Status(pub usize);

impl Status {
    /// Whether the status is `EFI_SUCCESS`.
    pub fn is_success(&self) -> (b: bool)
        ensures
            b == (self.0 == EFI_SUCCESS),
    {
        self.0 == EFI_SUCCESS
    }
}

/// ABI compatible UEFI boolean: 0 is false, anything else is true.
#[derive(PartialEq, Eq, Structural, Clone, Copy, Debug)]
pub struct Boolean(pub u8);

impl Boolean {
    /// Whether the value means true.
    pub fn is_true(&self) -> (b: bool)
        ensures
            b == (self.0 != 0),
    {
        self.0 != 0
    }
}

/// A UEFI memory type.
#[derive(PartialEq, Eq, Structural, Clone, Copy, Debug)]
pub struct MemoryType(pub u32);

pub const RESERVED: u32 = 0;
pub const LOADER_CODE: u32 = 1;
pub const LOADER_DATA: u32 = 2;
pub const BOOT_SERVICES_CODE: u32 = 3;
pub const BOOT_SERVICES_DATA: u32 = 4;
pub const RUNTIME_SERVICES_CODE: u32 = 5;
pub const RUNTIME_SERVICES_DATA: u32 = 6;
pub const CONVENTIONAL: u32 = 7;
pub const UNUSABLE: u32 = 8;
pub const ACPI_RECLAIM: u32 = 9;
pub const ACPI_NON_VOLATILE: u32 = 10;
pub const MMIO: u32 = 11;
pub const MMIO_PORT_SPACE: u32 = 12;
pub const PAL_CODE: u32 = 13;
pub const PERSISTENT_MEMORY: u32 = 14;
pub const UNACCEPTED: u32 = 15;
pub const MAX: u32 = 16;

impl MemoryType {
    /// A memory type from the range reserved for OS loaders (`0x8000_0000` and up).
    pub fn custom(value: u32) -> (t: MemoryType)
        requires
            value >= 0x8000_0000,
        ensures
            t == MemoryType(value),
    {
        MemoryType(value)
    }
}

/// Memory attribute bits of a memory descriptor.
#[derive(PartialEq, Eq, Structural, Clone, Copy, Debug)]
pub struct MemoryAttribute(pub u64);

/// One entry of the firmware memory map.
#[derive(PartialEq, Eq, Structural, Clone, Copy, Debug)]
pub struct MemoryDescriptor {
    pub memory_type: MemoryType,
    pub physical_start: u64,
    pub virtual_start: u64,
    pub page_count: u64,
    pub attribute: MemoryAttribute,
}

/// The first descriptor of `d` whose type is `ty`.
pub open spec fn first_of_type(d: Seq<MemoryDescriptor>, ty: MemoryType) -> Option<int>
    decreases d.len(),
{
    if d.len() == 0 {
        None
    } else {
        match first_of_type(d.drop_last(), ty) {
            Some(i) => Some(i),
            None => if d.last().memory_type == ty {
                Some(d.len() - 1)
            } else {
                None
            },
        }
    }
}

proof fn lemma_first_of_type_extends(d: Seq<MemoryDescriptor>, ty: MemoryType, k: nat)
    requires
        k <= d.len(),
        first_of_type(d.take(k as int), ty) is Some,
    ensures
        first_of_type(d, ty) == first_of_type(d.take(k as int), ty),
    decreases d.len() - k,
{
    if k < d.len() {
        assert(d.take(k as int + 1).drop_last() =~= d.take(k as int));
        lemma_first_of_type_extends(d, ty, k + 1);
    } else {
        assert(d.take(k as int) =~= d);
    }
}

/// The first descriptor of the memory map `descs` whose type is `ty`.
pub fn find_descriptor(descs: &Vec<MemoryDescriptor>, ty: MemoryType) -> (r: Option<MemoryDescriptor>)
    ensures
        match first_of_type(descs@, ty) {
            Some(i) => r == Some(descs@[i]),
            None => r is None,
        },
{
    let mut i: usize = 0;
    while i < descs.len()
        invariant
            i <= descs@.len(),
            first_of_type(descs@.take(i as int), ty) is None,
        decreases descs@.len() - i,
    {
        assert(descs@.take(i + 1).drop_last() =~= descs@.take(i as int));
        assert(descs@.take(i + 1).last() == descs@[i as int]);
        if descs[i].memory_type == ty {
            proof {
                lemma_first_of_type_extends(descs@, ty, (i + 1) as nat);
            }
            return Some(descs[i]);
        }
        i = i + 1;
    }
    assert(descs@.take(descs@.len() as int) =~= descs@);
    None
}

/// Kinds of system reset.
#[derive(PartialEq, Eq, Structural, Clone, Copy, Debug)]
pub enum ResetType {
    ResetCold,
    ResetWarm,
    ResetShutdown,
    ResetPlatformSpecific,
}

/// A UEFI character (UCS-2 code unit).
pub type Char16 = u16;

/// Information about a file.
pub struct FileInfo {
    pub size: u64,
    pub file_size: u64,
    pub physical_size: u64,
    pub attr: u64,
    /// Null terminated name.
    pub file_name: Vec<Char16>,
}

/// Information about a file system.
pub struct FileSystemInfo {
    pub size: u64,
    pub read_only: Boolean,
    pub volume_size: u64,
    pub free_space: u64,
    pub block_size: u32,
    pub volume_label: Vec<Char16>,
}

/// The label of a volume.
pub struct FileSystemVolumeLabel {
    pub volume_label: Vec<Char16>,
}

/// A protocol, identified by its GUID.
pub trait Protocol {
    fn guid() -> Guid;
}

/// Information records that can be asked of a file.
pub trait FileInformation: Protocol {}

/// The UTF-16 code units of character `c`.
pub open spec fn utf16_of(c: char) -> Seq<u16> {
    let v = c as u32;
    if v < 0x10000 {
        seq![v as u16]
    } else {
        let u = v - 0x10000;
        seq![(0xd800 + u / 1024) as u16, (0xdc00 + u % 1024) as u16]
    }
}

/// The UTF-16 encoding of `s`.
pub open spec fn encode_utf16(s: Seq<char>) -> Seq<u16>
    decreases s.len(),
{
    if s.len() == 0 {
        seq![]
    } else {
        encode_utf16(s.drop_last()) + utf16_of(s.last())
    }
}

/// The UTF-16 encoding of `s` followed by a terminating zero, as UEFI expects paths.
pub fn into_null_terminated_utf16(s: &str) -> (v: Vec<u16>)
    ensures
        v@ == encode_utf16(s@).push(0),
{
    let chars = chars_of(s);
    let mut v: Vec<u16> = Vec::new();
    let mut i: usize = 0;
    while i < chars.len()
        invariant
            i <= chars@.len(),
            v@ == encode_utf16(chars@.take(i as int)),
        decreases chars@.len() - i,
    {
        assert(chars@.take(i + 1).drop_last() =~= chars@.take(i as int));
        let c = chars[i] as u32;
        if c < 0x10000 {
            v.push(c as u16);
        } else {
            let u = c - 0x10000;
            v.push((0xd800 + u / 1024) as u16);
            v.push((0xdc00 + u % 1024) as u16);
        }
        assert(v@ =~= encode_utf16(chars@.take(i + 1)));
        i = i + 1;
    }
    assert(chars@.take(chars@.len() as int) =~= chars@);
    v.push(0);
    v
}

} // verus!
