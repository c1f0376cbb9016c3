//! The PE format of executables: its headers, and reading them from the bytes
//! of a file.
//!
//! A file starts with the DOS header, which says where the PE header is: a
//! signature, the COFF header, the optional header and the section headers.

use vstd::prelude::*;
use crate::memory::ram;
use super::error::{
    STATUS_IMAGE_MACHINE_TYPE_MISMATCH, STATUS_INVALID_IMAGE_FORMAT, STATUS_INVALID_IMAGE_NOT_MZ,
};
use super::types::{BYTE, DWORD, LONG, NTSTATUS, QWORD, WORD};

verus! {

/// The DOS header: the first 64 bytes of a file.
#[derive(Debug, Clone, Copy, PartialEq, Eq)]
pub struct ImageDosHeader {
    /// `IMAGE_DOS_SIGNATURE`.
    pub e_magic: WORD,
    pub e_cblp: WORD,
    pub e_cp: WORD,
    pub e_crlc: WORD,
    pub e_cparhdr: WORD,
    pub e_minalloc: WORD,
    pub e_maxalloc: WORD,
    pub e_ss: WORD,
    pub e_sp: WORD,
    pub e_csum: WORD,
    pub e_ip: WORD,
    pub e_cs: WORD,
    pub e_lfarlc: WORD,
    pub e_ovno: WORD,
    pub e_res: [WORD; 4],
    pub e_oemid: WORD,
    pub e_oeminfo: WORD,
    pub e_res2: [WORD; 10],
    /// Where the PE header is.
    pub e_lfanew: LONG,
}

pub const IMAGE_DOS_SIGNATURE: WORD = 0x5A4D;

pub const IMAGE_NT_SIGNATURE: DWORD = 0x00004550;

/// The COFF header: 20 bytes behind the signature.
#[derive(Debug, Clone, Copy, PartialEq, Eq, Structural)]
pub struct ImageFileHeader {
    /// The processor that the code is for.
    pub machine: WORD,
    pub number_of_sections: WORD,
    pub time_date_stamp: DWORD,
    pub pointer_to_symbol_table: DWORD,
    pub number_of_symbols: DWORD,
    /// Bytes up to the section headers.
    pub size_of_optional_header: WORD,
    /// The `IMAGE_FILE_` flags.
    pub characteristics: WORD,
}

pub const IMAGE_FILE_MACHINE_I386: WORD = 0x014C;

pub const IMAGE_FILE_MACHINE_AMD64: WORD = 0x8664;

pub const IMAGE_FILE_MACHINE_ARM64: WORD = 0xAA64;

pub const IMAGE_FILE_EXECUTABLE_IMAGE: WORD = 0x0002;

pub const IMAGE_FILE_LARGE_ADDRESS_AWARE: WORD = 0x0020;

pub const IMAGE_FILE_DLL: WORD = 0x2000;

/// The optional header of a 64-bit image, without the data directories.
#[derive(Debug, Clone, Copy, PartialEq, Eq, Structural)]
pub struct ImageOptionalHeader64 {
    /// `IMAGE_NT_OPTIONAL_HDR64_MAGIC`.
    pub magic: WORD,
    pub major_linker_version: BYTE,
    pub minor_linker_version: BYTE,
    pub size_of_code: DWORD,
    pub size_of_initialized_data: DWORD,
    pub size_of_uninitialized_data: DWORD,
    /// Where the program starts, relative to the image base.
    pub address_of_entry_point: DWORD,
    pub base_of_code: DWORD,
    /// The address the image wants to be loaded at.
    pub image_base: QWORD,
    pub section_alignment: DWORD,
    pub file_alignment: DWORD,
    pub major_os_version: WORD,
    pub minor_os_version: WORD,
    pub major_image_version: WORD,
    pub minor_image_version: WORD,
    pub major_subsystem_version: WORD,
    pub minor_subsystem_version: WORD,
    pub win32_version_value: DWORD,
    /// Bytes of the image in memory.
    pub size_of_image: DWORD,
    /// Bytes of all headers.
    pub size_of_headers: DWORD,
    pub checksum: DWORD,
    pub subsystem: WORD,
    pub dll_characteristics: WORD,
    pub size_of_stack_reserve: QWORD,
    pub size_of_stack_commit: QWORD,
    pub size_of_heap_reserve: QWORD,
    pub size_of_heap_commit: QWORD,
    pub loader_flags: DWORD,
    /// How many data directories follow.
    pub number_of_rva_and_sizes: DWORD,
}

pub const IMAGE_NT_OPTIONAL_HDR32_MAGIC: WORD = 0x10B;

pub const IMAGE_NT_OPTIONAL_HDR64_MAGIC: WORD = 0x20B;

pub const IMAGE_SUBSYSTEM_NATIVE: WORD = 1;

pub const IMAGE_SUBSYSTEM_WINDOWS_GUI: WORD = 2;

pub const IMAGE_SUBSYSTEM_WINDOWS_CUI: WORD = 3;

/// Where a table of the image is.
#[derive(Debug, Clone, Copy, PartialEq, Eq, Structural)]
pub struct ImageDataDirectory {
    /// Its address, relative to the image base.
    pub virtual_address: DWORD,
    /// Its size in bytes.
    pub size: DWORD,
}

pub const IMAGE_DIRECTORY_ENTRY_EXPORT: usize = 0;

pub const IMAGE_DIRECTORY_ENTRY_IMPORT: usize = 1;

pub const IMAGE_DIRECTORY_ENTRY_RESOURCE: usize = 2;

pub const IMAGE_DIRECTORY_ENTRY_EXCEPTION: usize = 3;

pub const IMAGE_DIRECTORY_ENTRY_SECURITY: usize = 4;

pub const IMAGE_DIRECTORY_ENTRY_BASERELOC: usize = 5;

pub const IMAGE_DIRECTORY_ENTRY_DEBUG: usize = 6;

pub const IMAGE_DIRECTORY_ENTRY_TLS: usize = 9;

pub const IMAGE_DIRECTORY_ENTRY_IAT: usize = 12;

pub const IMAGE_DIRECTORY_ENTRY_DELAY_IMPORT: usize = 13;

pub const IMAGE_NUMBEROF_DIRECTORY_ENTRIES: usize = 16;

/// The header of a section: 40 bytes.
#[derive(Debug, Clone, Copy, PartialEq, Eq)]
pub struct ImageSectionHeader {
    /// Its name, filled up with zeros.
    pub name: [BYTE; 8],
    /// Bytes in memory.
    pub virtual_size: DWORD,
    /// Where it is in memory, relative to the image base.
    pub virtual_address: DWORD,
    /// Bytes in the file.
    pub size_of_raw_data: DWORD,
    /// Where it is in the file.
    pub pointer_to_raw_data: DWORD,
    pub pointer_to_relocations: DWORD,
    pub pointer_to_linenumbers: DWORD,
    pub number_of_relocations: WORD,
    pub number_of_linenumbers: WORD,
    /// The `IMAGE_SCN_` flags.
    pub characteristics: DWORD,
}

pub const IMAGE_SCN_CNT_CODE: DWORD = 0x00000020;

pub const IMAGE_SCN_CNT_INITIALIZED_DATA: DWORD = 0x00000040;

pub const IMAGE_SCN_CNT_UNINITIALIZED_DATA: DWORD = 0x00000080;

pub const IMAGE_SCN_MEM_EXECUTE: DWORD = 0x20000000;

pub const IMAGE_SCN_MEM_READ: DWORD = 0x40000000;

pub const IMAGE_SCN_MEM_WRITE: DWORD = 0x80000000;

/// One library that the image imports from: 20 bytes.
#[derive(Debug, Clone, Copy, PartialEq, Eq, Structural)]
pub struct ImageImportDescriptor {
    /// Where the names of the functions are.
    pub original_first_thunk: DWORD,
    pub time_date_stamp: DWORD,
    pub forwarder_chain: DWORD,
    /// Where the name of the library is, relative to the image base.
    pub name: DWORD,
    /// Where their addresses go.
    pub first_thunk: DWORD,
}

/// A function imported by name; the name follows.
#[derive(Debug, Clone, Copy, PartialEq, Eq, Structural)]
pub struct ImageImportByName {
    pub hint: WORD,
}

/// The functions that a library exports.
#[derive(Debug, Clone, Copy, PartialEq, Eq, Structural)]
pub struct ImageExportDirectory {
    pub characteristics: DWORD,
    pub time_date_stamp: DWORD,
    pub major_version: WORD,
    pub minor_version: WORD,
    pub name: DWORD,
    pub base: DWORD,
    pub number_of_functions: DWORD,
    pub number_of_names: DWORD,
    pub address_of_functions: DWORD,
    pub address_of_names: DWORD,
    pub address_of_name_ordinals: DWORD,
}

/// The header of the relocations of one page.
#[derive(Debug, Clone, Copy, PartialEq, Eq, Structural)]
pub struct ImageBaseRelocation {
    pub virtual_address: DWORD,
    pub size_of_block: DWORD,
}

pub const IMAGE_REL_BASED_ABSOLUTE: WORD = 0;

pub const IMAGE_REL_BASED_HIGH: WORD = 1;

pub const IMAGE_REL_BASED_LOW: WORD = 2;

pub const IMAGE_REL_BASED_HIGHLOW: WORD = 3;

pub const IMAGE_REL_BASED_DIR64: WORD = 10;

/// Bytes of the DOS header.
pub const DOS_HEADER_SIZE: usize = 64;

/// Bytes of the COFF header.
pub const FILE_HEADER_SIZE: usize = 20;

/// Bytes of the optional header.
pub const OPTIONAL_HEADER_SIZE: usize = 112;

/// Bytes of a section header.
pub const SECTION_HEADER_SIZE: usize = 40;

/// A 32-bit number read as a signed one.
pub open spec fn as_signed(v: u32) -> i32 {
    if v < 0x8000_0000 {
        v as i32
    } else {
        (v - 0x1_0000_0000) as i32
    }
}

fn to_signed(v: u32) -> (r: i32)
    ensures
        r == as_signed(v),
{
    if v < 0x8000_0000 {
        v as i32
    } else {
        -1 - ((0xFFFF_FFFF - v) as i32)
    }
}

/// Where the PE header is, according to the DOS header.
pub open spec fn lfanew(data: Seq<u8>) -> i32 {
    as_signed(ram::le32(data, 60))
}

/// The DOS header holds what the first 64 bytes of the file say.
pub open spec fn is_dos_header(h: ImageDosHeader, data: Seq<u8>) -> bool {
    &&& h.e_magic == ram::le16(data, 0)
    &&& h.e_cblp == ram::le16(data, 2)
    &&& h.e_cp == ram::le16(data, 4)
    &&& h.e_crlc == ram::le16(data, 6)
    &&& h.e_cparhdr == ram::le16(data, 8)
    &&& h.e_minalloc == ram::le16(data, 10)
    &&& h.e_maxalloc == ram::le16(data, 12)
    &&& h.e_ss == ram::le16(data, 14)
    &&& h.e_sp == ram::le16(data, 16)
    &&& h.e_csum == ram::le16(data, 18)
    &&& h.e_ip == ram::le16(data, 20)
    &&& h.e_cs == ram::le16(data, 22)
    &&& h.e_lfarlc == ram::le16(data, 24)
    &&& h.e_ovno == ram::le16(data, 26)
    &&& h.e_res@ == Seq::new(4, |i: int| ram::le16(data, 28 + 2 * i))
    &&& h.e_oemid == ram::le16(data, 36)
    &&& h.e_oeminfo == ram::le16(data, 38)
    &&& h.e_res2@ == Seq::new(10, |i: int| ram::le16(data, 40 + 2 * i))
    &&& h.e_lfanew == lfanew(data)
}

fn read_dos_header(data: &[u8]) -> (r: ImageDosHeader)
    requires
        data.len() >= DOS_HEADER_SIZE,
    ensures
        is_dos_header(r, data@),
{
    let r = ImageDosHeader {
        e_magic: ram::read_u16(data, 0),
        e_cblp: ram::read_u16(data, 2),
        e_cp: ram::read_u16(data, 4),
        e_crlc: ram::read_u16(data, 6),
        e_cparhdr: ram::read_u16(data, 8),
        e_minalloc: ram::read_u16(data, 10),
        e_maxalloc: ram::read_u16(data, 12),
        e_ss: ram::read_u16(data, 14),
        e_sp: ram::read_u16(data, 16),
        e_csum: ram::read_u16(data, 18),
        e_ip: ram::read_u16(data, 20),
        e_cs: ram::read_u16(data, 22),
        e_lfarlc: ram::read_u16(data, 24),
        e_ovno: ram::read_u16(data, 26),
        e_res: [
            ram::read_u16(data, 28),
            ram::read_u16(data, 30),
            ram::read_u16(data, 32),
            ram::read_u16(data, 34),
        ],
        e_oemid: ram::read_u16(data, 36),
        e_oeminfo: ram::read_u16(data, 38),
        e_res2: [
            ram::read_u16(data, 40),
            ram::read_u16(data, 42),
            ram::read_u16(data, 44),
            ram::read_u16(data, 46),
            ram::read_u16(data, 48),
            ram::read_u16(data, 50),
            ram::read_u16(data, 52),
            ram::read_u16(data, 54),
            ram::read_u16(data, 56),
            ram::read_u16(data, 58),
        ],
        e_lfanew: to_signed(ram::read_u32(data, 60)),
    };
    assert(r.e_res@ =~= Seq::new(4, |i: int| ram::le16(data@, 28 + 2 * i)));
    assert(r.e_res2@ =~= Seq::new(10, |i: int| ram::le16(data@, 40 + 2 * i)));
    r
}

/// The COFF header at a place of the file.
pub open spec fn file_header_at(data: Seq<u8>, at: int) -> ImageFileHeader {
    ImageFileHeader {
        machine: ram::le16(data, at),
        number_of_sections: ram::le16(data, at + 2),
        time_date_stamp: ram::le32(data, at + 4),
        pointer_to_symbol_table: ram::le32(data, at + 8),
        number_of_symbols: ram::le32(data, at + 12),
        size_of_optional_header: ram::le16(data, at + 16),
        characteristics: ram::le16(data, at + 18),
    }
}

fn read_file_header(data: &[u8], at: usize) -> (r: ImageFileHeader)
    requires
        at + 20 <= data.len(),
    ensures
        r == file_header_at(data@, at as int),
{
    ImageFileHeader {
        machine: ram::read_u16(data, at),
        number_of_sections: ram::read_u16(data, at + 2),
        time_date_stamp: ram::read_u32(data, at + 4),
        pointer_to_symbol_table: ram::read_u32(data, at + 8),
        number_of_symbols: ram::read_u32(data, at + 12),
        size_of_optional_header: ram::read_u16(data, at + 16),
        characteristics: ram::read_u16(data, at + 18),
    }
}

/// The optional header at a place of the file.
pub open spec fn optional_header_at(data: Seq<u8>, at: int) -> ImageOptionalHeader64 {
    ImageOptionalHeader64 {
        magic: ram::le16(data, at),
        major_linker_version: data[at + 2],
        minor_linker_version: data[at + 3],
        size_of_code: ram::le32(data, at + 4),
        size_of_initialized_data: ram::le32(data, at + 8),
        size_of_uninitialized_data: ram::le32(data, at + 12),
        address_of_entry_point: ram::le32(data, at + 16),
        base_of_code: ram::le32(data, at + 20),
        image_base: ram::le64(data, at + 24),
        section_alignment: ram::le32(data, at + 32),
        file_alignment: ram::le32(data, at + 36),
        major_os_version: ram::le16(data, at + 40),
        minor_os_version: ram::le16(data, at + 42),
        major_image_version: ram::le16(data, at + 44),
        minor_image_version: ram::le16(data, at + 46),
        major_subsystem_version: ram::le16(data, at + 48),
        minor_subsystem_version: ram::le16(data, at + 50),
        win32_version_value: ram::le32(data, at + 52),
        size_of_image: ram::le32(data, at + 56),
        size_of_headers: ram::le32(data, at + 60),
        checksum: ram::le32(data, at + 64),
        subsystem: ram::le16(data, at + 68),
        dll_characteristics: ram::le16(data, at + 70),
        size_of_stack_reserve: ram::le64(data, at + 72),
        size_of_stack_commit: ram::le64(data, at + 80),
        size_of_heap_reserve: ram::le64(data, at + 88),
        size_of_heap_commit: ram::le64(data, at + 96),
        loader_flags: ram::le32(data, at + 104),
        number_of_rva_and_sizes: ram::le32(data, at + 108),
    }
}

fn read_optional_header(data: &[u8], at: usize) -> (r: ImageOptionalHeader64)
    requires
        at + 112 <= data.len(),
    ensures
        r == optional_header_at(data@, at as int),
{
    ImageOptionalHeader64 {
        magic: ram::read_u16(data, at),
        major_linker_version: data[at + 2],
        minor_linker_version: data[at + 3],
        size_of_code: ram::read_u32(data, at + 4),
        size_of_initialized_data: ram::read_u32(data, at + 8),
        size_of_uninitialized_data: ram::read_u32(data, at + 12),
        address_of_entry_point: ram::read_u32(data, at + 16),
        base_of_code: ram::read_u32(data, at + 20),
        image_base: ram::read_u64(data, at + 24),
        section_alignment: ram::read_u32(data, at + 32),
        file_alignment: ram::read_u32(data, at + 36),
        major_os_version: ram::read_u16(data, at + 40),
        minor_os_version: ram::read_u16(data, at + 42),
        major_image_version: ram::read_u16(data, at + 44),
        minor_image_version: ram::read_u16(data, at + 46),
        major_subsystem_version: ram::read_u16(data, at + 48),
        minor_subsystem_version: ram::read_u16(data, at + 50),
        win32_version_value: ram::read_u32(data, at + 52),
        size_of_image: ram::read_u32(data, at + 56),
        size_of_headers: ram::read_u32(data, at + 60),
        checksum: ram::read_u32(data, at + 64),
        subsystem: ram::read_u16(data, at + 68),
        dll_characteristics: ram::read_u16(data, at + 70),
        size_of_stack_reserve: ram::read_u64(data, at + 72),
        size_of_stack_commit: ram::read_u64(data, at + 80),
        size_of_heap_reserve: ram::read_u64(data, at + 88),
        size_of_heap_commit: ram::read_u64(data, at + 96),
        loader_flags: ram::read_u32(data, at + 104),
        number_of_rva_and_sizes: ram::read_u32(data, at + 108),
    }
}

/// The import descriptor at a place of the file.
pub open spec fn import_descriptor_at(data: Seq<u8>, at: int) -> ImageImportDescriptor {
    ImageImportDescriptor {
        original_first_thunk: ram::le32(data, at),
        time_date_stamp: ram::le32(data, at + 4),
        forwarder_chain: ram::le32(data, at + 8),
        name: ram::le32(data, at + 12),
        first_thunk: ram::le32(data, at + 16),
    }
}

/// Reads the import descriptor at a place of the file.
pub fn read_import_descriptor(data: &[u8], at: usize) -> (r: ImageImportDescriptor)
    requires
        at + 20 <= data.len(),
    ensures
        r == import_descriptor_at(data@, at as int),
{
    ImageImportDescriptor {
        original_first_thunk: ram::read_u32(data, at),
        time_date_stamp: ram::read_u32(data, at + 4),
        forwarder_chain: ram::read_u32(data, at + 8),
        name: ram::read_u32(data, at + 12),
        first_thunk: ram::read_u32(data, at + 16),
    }
}

/// The data directory at a place of the file.
pub open spec fn data_directory_at(data: Seq<u8>, at: int) -> ImageDataDirectory {
    ImageDataDirectory {
        virtual_address: ram::le32(data, at),
        size: ram::le32(data, at + 4),
    }
}

/// Reads the data directory at a place of the file.
pub fn read_data_directory(data: &[u8], at: usize) -> (r: ImageDataDirectory)
    requires
        at + 8 <= data.len(),
    ensures
        r == data_directory_at(data@, at as int),
{
    ImageDataDirectory {
        virtual_address: ram::read_u32(data, at),
        size: ram::read_u32(data, at + 4),
    }
}

/// A section header, with its name as a sequence.
#[verifier::ext_equal]
pub struct Section {
    pub name: Seq<u8>,
    pub virtual_size: DWORD,
    pub virtual_address: DWORD,
    pub size_of_raw_data: DWORD,
    pub pointer_to_raw_data: DWORD,
    pub pointer_to_relocations: DWORD,
    pub pointer_to_linenumbers: DWORD,
    pub number_of_relocations: WORD,
    pub number_of_linenumbers: WORD,
    pub characteristics: DWORD,
}

impl View for ImageSectionHeader {
    type V = Section;

    open spec fn view(&self) -> Section {
        Section {
            name: self.name@,
            virtual_size: self.virtual_size,
            virtual_address: self.virtual_address,
            size_of_raw_data: self.size_of_raw_data,
            pointer_to_raw_data: self.pointer_to_raw_data,
            pointer_to_relocations: self.pointer_to_relocations,
            pointer_to_linenumbers: self.pointer_to_linenumbers,
            number_of_relocations: self.number_of_relocations,
            number_of_linenumbers: self.number_of_linenumbers,
            characteristics: self.characteristics,
        }
    }
}

/// The section header at a place of the file.
pub open spec fn section_at(data: Seq<u8>, at: int) -> Section {
    Section {
        name: data.subrange(at, at + 8),
        virtual_size: ram::le32(data, at + 8),
        virtual_address: ram::le32(data, at + 12),
        size_of_raw_data: ram::le32(data, at + 16),
        pointer_to_raw_data: ram::le32(data, at + 20),
        pointer_to_relocations: ram::le32(data, at + 24),
        pointer_to_linenumbers: ram::le32(data, at + 28),
        number_of_relocations: ram::le16(data, at + 32),
        number_of_linenumbers: ram::le16(data, at + 34),
        characteristics: ram::le32(data, at + 36),
    }
}

fn read_section_header(data: &[u8], at: usize) -> (r: ImageSectionHeader)
    requires
        at + SECTION_HEADER_SIZE <= data.len(),
    ensures
        r@ == section_at(data@, at as int),
{
    let r = ImageSectionHeader {
        name: [
            data[at],
            data[at + 1],
            data[at + 2],
            data[at + 3],
            data[at + 4],
            data[at + 5],
            data[at + 6],
            data[at + 7],
        ],
        virtual_size: ram::read_u32(data, at + 8),
        virtual_address: ram::read_u32(data, at + 12),
        size_of_raw_data: ram::read_u32(data, at + 16),
        pointer_to_raw_data: ram::read_u32(data, at + 20),
        pointer_to_relocations: ram::read_u32(data, at + 24),
        pointer_to_linenumbers: ram::read_u32(data, at + 28),
        number_of_relocations: ram::read_u16(data, at + 32),
        number_of_linenumbers: ram::read_u16(data, at + 34),
        characteristics: ram::read_u32(data, at + 36),
    };
    assert(r.name@ =~= data@.subrange(at as int, at + 8));
    r
}

/// What is wrong with the DOS header of a file.
pub open spec fn dos_error(data: Seq<u8>) -> Option<u32> {
    if data.len() < DOS_HEADER_SIZE {
        Some(STATUS_INVALID_IMAGE_FORMAT)
    } else if ram::le16(data, 0) != IMAGE_DOS_SIGNATURE {
        Some(STATUS_INVALID_IMAGE_NOT_MZ)
    } else if lfanew(data) < 0 || lfanew(data) >= data.len() {
        Some(STATUS_INVALID_IMAGE_FORMAT)
    } else {
        None
    }
}

/// Reads the DOS header. It has to be there, with its signature, and has to
/// lead to a place in the file.
pub fn validate_dos_header(data: &[u8]) -> (r: Result<ImageDosHeader, NTSTATUS>)
    ensures
        match dos_error(data@) {
            Some(e) => r == Err::<ImageDosHeader, NTSTATUS>(NTSTATUS(e)),
            None => r matches Ok(h) && is_dos_header(h, data@),
        },
{
    if data.len() < DOS_HEADER_SIZE {
        return Err(NTSTATUS(STATUS_INVALID_IMAGE_FORMAT));
    }
    let dos = read_dos_header(data);
    if dos.e_magic != IMAGE_DOS_SIGNATURE {
        return Err(NTSTATUS(STATUS_INVALID_IMAGE_NOT_MZ));
    }
    if dos.e_lfanew < 0 || dos.e_lfanew as usize >= data.len() {
        return Err(NTSTATUS(STATUS_INVALID_IMAGE_FORMAT));
    }
    Ok(dos)
}

/// What is wrong with the signature and the COFF header of a file whose PE
/// header is at `l`.
pub open spec fn pe_header_error(data: Seq<u8>, l: int) -> Option<u32> {
    if l + 4 > data.len() || ram::le32(data, l) != IMAGE_NT_SIGNATURE || l + 24 > data.len() {
        Some(STATUS_INVALID_IMAGE_FORMAT)
    } else {
        None
    }
}

/// Checks the signature and reads the COFF header.
pub fn validate_pe_header(data: &[u8], dos: &ImageDosHeader) -> (r: Result<
    ImageFileHeader,
    NTSTATUS,
>)
    requires
        dos.e_lfanew >= 0,
    ensures
        r == match pe_header_error(data@, dos.e_lfanew as int) {
            Some(e) => Err::<ImageFileHeader, NTSTATUS>(NTSTATUS(e)),
            None => Ok(file_header_at(data@, dos.e_lfanew + 4)),
        },
{
    let pe_offset: usize = dos.e_lfanew as usize;
    if pe_offset + 4 > data.len() {
        return Err(NTSTATUS(STATUS_INVALID_IMAGE_FORMAT));
    }
    if ram::read_u32(data, pe_offset) != IMAGE_NT_SIGNATURE {
        return Err(NTSTATUS(STATUS_INVALID_IMAGE_FORMAT));
    }
    let coff_offset: usize = pe_offset + 4;
    if coff_offset + FILE_HEADER_SIZE > data.len() {
        return Err(NTSTATUS(STATUS_INVALID_IMAGE_FORMAT));
    }
    Ok(read_file_header(data, coff_offset))
}

/// What is wrong with the optional header of a file whose PE header is at `l`.
pub open spec fn optional_header_error(data: Seq<u8>, l: int) -> Option<u32> {
    if l + 24 + 112 > data.len() {
        Some(STATUS_INVALID_IMAGE_FORMAT)
    } else if ram::le16(data, l + 24) != IMAGE_NT_OPTIONAL_HDR64_MAGIC {
        Some(STATUS_IMAGE_MACHINE_TYPE_MISMATCH)
    } else {
        None
    }
}

/// Reads the optional header, which has to be that of a 64-bit image.
pub fn validate_optional_header(data: &[u8], dos: &ImageDosHeader) -> (r: Result<
    ImageOptionalHeader64,
    NTSTATUS,
>)
    requires
        dos.e_lfanew >= 0,
    ensures
        r == match optional_header_error(data@, dos.e_lfanew as int) {
            Some(e) => Err::<ImageOptionalHeader64, NTSTATUS>(NTSTATUS(e)),
            None => Ok(optional_header_at(data@, dos.e_lfanew + 24)),
        },
{
    let opt_offset: usize = dos.e_lfanew as usize + 4 + FILE_HEADER_SIZE;
    if opt_offset + OPTIONAL_HEADER_SIZE > data.len() {
        return Err(NTSTATUS(STATUS_INVALID_IMAGE_FORMAT));
    }
    let opt = read_optional_header(data, opt_offset);
    if opt.magic != IMAGE_NT_OPTIONAL_HDR64_MAGIC {
        return Err(NTSTATUS(STATUS_IMAGE_MACHINE_TYPE_MISMATCH));
    }
    Ok(opt)
}

/// Where the section headers start.
pub open spec fn sections_offset(l: int, coff: ImageFileHeader) -> int {
    l + 24 + coff.size_of_optional_header
}

/// The section headers of a file.
pub open spec fn sections_of(data: Seq<u8>, l: int, coff: ImageFileHeader) -> Seq<Section> {
    Seq::new(
        coff.number_of_sections as nat,
        |i: int| section_at(data, sections_offset(l, coff) + 40 * i),
    )
}

/// The sections as their views.
pub open spec fn views(sections: Seq<ImageSectionHeader>) -> Seq<Section> {
    Seq::new(sections.len(), |i: int| sections[i]@)
}

/// Reads the section headers, which have to lie in the file.
pub fn get_section_headers(data: &[u8], dos: &ImageDosHeader, coff: &ImageFileHeader) -> (r: Result<
    Vec<ImageSectionHeader>,
    NTSTATUS,
>)
    requires
        dos.e_lfanew >= 0,
    ensures
        if sections_offset(dos.e_lfanew as int, *coff) + 40 * coff.number_of_sections
            > data@.len() {
            r == Err::<Vec<ImageSectionHeader>, NTSTATUS>(NTSTATUS(STATUS_INVALID_IMAGE_FORMAT))
        } else {
            r matches Ok(v) && views(v@) == sections_of(data@, dos.e_lfanew as int, *coff)
        },
{
    let offset: usize = dos.e_lfanew as usize + 4 + FILE_HEADER_SIZE
        + coff.size_of_optional_header as usize;
    let num: usize = coff.number_of_sections as usize;
    let total_size: usize = num * SECTION_HEADER_SIZE;
    if offset + total_size > data.len() {
        return Err(NTSTATUS(STATUS_INVALID_IMAGE_FORMAT));
    }
    let ghost want = sections_of(data@, dos.e_lfanew as int, *coff);
    let mut sections: Vec<ImageSectionHeader> = Vec::new();
    let mut i: usize = 0;
    while i < num
        invariant
            i <= num,
            num == coff.number_of_sections,
            offset == sections_offset(dos.e_lfanew as int, *coff),
            offset + 40 * num <= data.len(),
            want == sections_of(data@, dos.e_lfanew as int, *coff),
            sections@.len() == i,
            forall|j: int| 0 <= j < i ==> (#[trigger] sections@[j])@ == want[j],
        decreases num - i,
    {
        sections.push(read_section_header(data, offset + i * SECTION_HEADER_SIZE));
        i = i + 1;
    }
    assert(views(sections@) =~= want);
    Ok(sections)
}

/// The headers of a file that was checked.
pub struct PeInfo {
    pub dos: ImageDosHeader,
    pub coff: ImageFileHeader,
    pub optional: ImageOptionalHeader64,
    pub sections: Vec<ImageSectionHeader>,
}

/// The headers of a file, as far as loading it depends on them.
#[verifier::ext_equal]
pub struct Pe {
    pub lfanew: int,
    pub coff: ImageFileHeader,
    pub optional: ImageOptionalHeader64,
    pub sections: Seq<Section>,
}

impl View for PeInfo {
    type V = Pe;

    open spec fn view(&self) -> Pe {
        Pe {
            lfanew: self.dos.e_lfanew as int,
            coff: self.coff,
            optional: self.optional,
            sections: views(self.sections@),
        }
    }
}

/// What is wrong with a file, if it is no 64-bit PE file.
#[verifier::opaque]
pub open spec fn pe_error(data: Seq<u8>) -> Option<u32> {
    if dos_error(data) is Some {
        dos_error(data)
    } else {
        let l = lfanew(data) as int;
        if pe_header_error(data, l) is Some {
            pe_header_error(data, l)
        } else if optional_header_error(data, l) is Some {
            optional_header_error(data, l)
        } else {
            let coff = file_header_at(data, l + 4);
            if sections_offset(l, coff) + 40 * coff.number_of_sections > data.len() {
                Some(STATUS_INVALID_IMAGE_FORMAT)
            } else {
                None
            }
        }
    }
}

/// The headers of a file.
#[verifier::opaque]
pub open spec fn pe_of(data: Seq<u8>) -> Pe {
    let l = lfanew(data) as int;
    let coff = file_header_at(data, l + 4);
    Pe {
        lfanew: l,
        coff,
        optional: optional_header_at(data, l + 24),
        sections: sections_of(data, l, coff),
    }
}

/// Checks a file and reads its headers.
pub fn parse_pe(data: &[u8]) -> (r: Result<PeInfo, NTSTATUS>)
    ensures
        match pe_error(data@) {
            Some(e) => r == Err::<PeInfo, NTSTATUS>(NTSTATUS(e)),
            None => r matches Ok(pe) && pe@ == pe_of(data@) && is_dos_header(pe.dos, data@),
        },
{
    reveal(pe_error);
    reveal(pe_of);
    let dos = match validate_dos_header(data) {
        Ok(h) => h,
        Err(e) => {
            return Err(e);
        },
    };
    let coff = match validate_pe_header(data, &dos) {
        Ok(h) => h,
        Err(e) => {
            return Err(e);
        },
    };
    let optional = match validate_optional_header(data, &dos) {
        Ok(h) => h,
        Err(e) => {
            return Err(e);
        },
    };
    let sections = match get_section_headers(data, &dos, &coff) {
        Ok(v) => v,
        Err(e) => {
            return Err(e);
        },
    };
    Ok(PeInfo { dos, coff, optional, sections })
}

} // verus!
