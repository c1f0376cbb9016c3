//! The loader: maps a PE file, or a bare binary, into a new address space.

use vstd::prelude::*;
use crate::memory::paging;
use crate::memory::paging::space;
use crate::memory::paging::Mem;
use crate::memory::phys::FrameAllocator;
use crate::search;
use crate::task;
use crate::userspace;
use crate::win32::error::STATUS_INVALID_IMAGE_FORMAT;
use crate::win32::pe;
use crate::win32::pe::{
    Pe, PeInfo, Section, ImageSectionHeader, IMAGE_FILE_DLL, IMAGE_FILE_MACHINE_AMD64,
    IMAGE_SUBSYSTEM_NATIVE, IMAGE_SUBSYSTEM_WINDOWS_CUI, IMAGE_SUBSYSTEM_WINDOWS_GUI,
};
use crate::win32::types::NTSTATUS;

verus! {

/// The largest image: 16 MiB.
pub const MAX_IMAGE_SIZE: u32 = 16_777_216;

/// The largest section: 4 MiB.
pub const MAX_SECTION_SIZE: u32 = 4_194_304;

/// An image that was loaded.
#[derive(Debug, Clone, Copy, PartialEq, Eq, Structural)]
pub struct LoadedImage {
    /// Where the program starts.
    pub entry_point: u64,
    /// Where the image is in memory.
    pub image_base: u64,
    /// Its size in memory.
    pub image_size: u32,
    pub sections_loaded: usize,
    pub subsystem: u16,
    pub machine: u16,
    /// The address space it was loaded into.
    pub cr3: u64,
    pub user_stack_top: u64,
}

/// Why an image was not loaded.
#[derive(Debug, Clone, Copy, PartialEq, Eq, Structural)]
pub enum LoadError {
    /// It is no PE file.
    InvalidPe(NTSTATUS),
    /// It is for another processor.
    WrongArchitecture,
    /// It is a library.
    NotExecutable,
    /// There are too few frames, or a part has too many pages.
    OutOfMemory,
    /// A section is too large.
    SectionTooLarge,
    /// The image is too large.
    ImageTooLarge,
}

/// What `map_user_pages_as` does, and `None` where it cannot be carried out: a
/// page table lacks a frame or does not lie in the RAM, or the addresses run
/// over the end of the address space.
pub open spec fn block_mapped(
    m: Mem,
    cr3: int,
    virt_base: int,
    data: Seq<u8>,
    size: int,
    rights: u64,
) -> Option<(Mem, bool)> {
    let n = userspace::page_count(size);
    if n > userspace::MAX_IMAGE_PAGES {
        Some((m, false))
    } else if virt_base + n * 4096 > u64::MAX {
        None
    } else {
        userspace::pages_mapped(m, cr3, virt_base as u64, data, rights, 0, n)
    }
}

/// Bytes of a section in memory.
pub open spec fn section_size(s: Section) -> u32 {
    if s.virtual_size > 0 {
        s.virtual_size
    } else {
        s.size_of_raw_data
    }
}

/// The bytes of a section that the file holds; none if they do not lie in it.
pub open spec fn section_data(data: Seq<u8>, s: Section) -> Seq<u8> {
    let end = s.pointer_to_raw_data + s.size_of_raw_data;
    if s.size_of_raw_data > 0 && end <= data.len() {
        data.subrange(s.pointer_to_raw_data as int, end)
    } else {
        Seq::empty()
    }
}

/// User mode may write to a section.
pub open spec fn section_writable(s: Section) -> bool {
    s.characteristics as int / pe::IMAGE_SCN_MEM_WRITE as int % 2 == 1
}

/// User mode may execute a section.
pub open spec fn section_executable(s: Section) -> bool {
    s.characteristics as int / pe::IMAGE_SCN_MEM_EXECUTE as int % 2 == 1
}

/// The flags of the pages of a section.
pub open spec fn section_rights(s: Section) -> u64 {
    paging::user_rights(section_writable(s), section_executable(s))
}

/// The memory once the sections from `i` on are mapped, and how many were
/// loaded in all, if none failed. Empty sections are passed over.
pub open spec fn sections_mapped(
    m: Mem,
    cr3: int,
    base: u64,
    data: Seq<u8>,
    sections: Seq<Section>,
    i: int,
    loaded: int,
) -> Option<(Mem, Result<usize, LoadError>)>
    decreases sections.len() - i,
{
    if i >= sections.len() {
        Some((m, Ok(loaded as usize)))
    } else {
        let s = sections[i];
        if section_size(s) == 0 {
            sections_mapped(m, cr3, base, data, sections, i + 1, loaded)
        } else if section_size(s) > MAX_SECTION_SIZE {
            Some((m, Err(LoadError::SectionTooLarge)))
        } else if base + s.virtual_address > u64::MAX {
            None
        } else {
            match block_mapped(
                m,
                cr3,
                base + s.virtual_address,
                section_data(data, s),
                section_size(s) as int,
                section_rights(s),
            ) {
                None => None,
                Some((w, false)) => Some((w, Err(LoadError::OutOfMemory))),
                Some((w, true)) => sections_mapped(
                    w,
                    cr3,
                    base,
                    data,
                    sections,
                    i + 1,
                    loaded + 1,
                ),
            }
        }
    }
}

/// Whether an image can be loaded at all, by its headers.
pub open spec fn refused(v: Pe) -> Option<LoadError> {
    if v.coff.machine != IMAGE_FILE_MACHINE_AMD64 {
        Some(LoadError::WrongArchitecture)
    } else if v.coff.characteristics as int / IMAGE_FILE_DLL as int % 2 == 1 {
        Some(LoadError::NotExecutable)
    } else if v.optional.size_of_image > MAX_IMAGE_SIZE {
        Some(LoadError::ImageTooLarge)
    } else {
        None
    }
}

/// The memory once an image is mapped into the address space at `cr3`, headers,
/// sections and stack, and the number of sections or the error.
pub open spec fn image_mapped(m: Mem, cr3: int, data: Seq<u8>, v: Pe) -> Option<
    (Mem, Result<usize, LoadError>),
> {
    let base = v.optional.image_base;
    let headers = v.optional.size_of_headers as int;
    if headers > data.len() {
        Some((m, Err(LoadError::InvalidPe(NTSTATUS(STATUS_INVALID_IMAGE_FORMAT)))))
    } else {
        match block_mapped(
            m,
            cr3,
            base as int,
            data.subrange(0, headers),
            headers,
            paging::map_flags(true),
        ) {
            None => None,
            Some((m1, false)) => Some((m1, Err(LoadError::OutOfMemory))),
            Some((m1, true)) => match sections_mapped(m1, cr3, base, data, v.sections, 0, 0) {
                None => None,
                Some((m2, Err(e))) => Some((m2, Err(e))),
                Some((m2, Ok(loaded))) => match stack_mapped(m2, cr3) {
                    None => None,
                    Some((m3, false)) => Some((m3, Err(LoadError::OutOfMemory))),
                    Some((m3, true)) => Some((m3, Ok(loaded))),
                },
            },
        }
    }
}

/// The memory once the user stack is mapped, and whether there were enough
/// frames.
pub open spec fn stack_mapped(m: Mem, cr3: int) -> Option<(Mem, bool)> {
    userspace::pages_mapped(
        m,
        cr3,
        (userspace::USER_STACK_TOP - userspace::USER_STACK_SIZE) as u64,
        Seq::empty(),
        paging::map_flags(true),
        0,
        16,
    )
}

/// What `load_pe` leaves in memory, and its result. `None` where the loading
/// cannot be carried out; see `block_mapped`.
#[verifier::opaque]
pub open spec fn pe_loaded(m: Mem, current: int, data: Seq<u8>) -> Option<
    (Mem, Result<LoadedImage, LoadError>),
> {
    let v = pe::pe_of(data);
    match pe::pe_error(data) {
        Some(e) => Some((m, Err(LoadError::InvalidPe(NTSTATUS(e))))),
        None => match refused(v) {
            Some(e) => Some((m, Err(e))),
            None => if m.frames.lowest_free() is None {
                Some((m, Err(LoadError::OutOfMemory)))
            } else {
                let cr3 = m.fresh_addr();
                let entry = v.optional.image_base + v.optional.address_of_entry_point;
                match image_mapped(userspace::space_made(m, current), cr3, data, v) {
                    None => None,
                    Some((w, Err(e))) => Some((w, Err(e))),
                    Some((w, Ok(loaded))) => if entry > u64::MAX {
                        None
                    } else {
                        Some(
                            (
                                w,
                                Ok(
                                    LoadedImage {
                                        entry_point: entry as u64,
                                        image_base: v.optional.image_base,
                                        image_size: v.optional.size_of_image,
                                        sections_loaded: loaded,
                                        subsystem: v.optional.subsystem,
                                        machine: v.coff.machine,
                                        cr3: cr3 as u64,
                                        user_stack_top: userspace::USER_STACK_TOP,
                                    },
                                ),
                            ),
                        )
                    },
                }
            },
        },
    }
}

/// Maps a block for user mode. See `block_mapped`.
fn map_block(
    frames: &mut FrameAllocator,
    bytes: &mut [u8],
    cr3: u64,
    virt_base: u64,
    data: &[u8],
    size: usize,
    rights: u64,
) -> (r: bool)
    requires
        old(frames).wf(),
        paging::mem(old(frames), old(bytes)@).sane(),
        block_mapped(
            paging::mem(old(frames), old(bytes)@),
            cr3 as int,
            virt_base as int,
            data@,
            size as int,
            rights,
        ) is Some,
    ensures
        final(frames).wf(),
        paging::mem(final(frames), final(bytes)@).sane(),
        Some((paging::mem(final(frames), final(bytes)@), r)) == block_mapped(
            paging::mem(old(frames), old(bytes)@),
            cr3 as int,
            virt_base as int,
            data@,
            size as int,
            rights,
        ),
        final(bytes)@.len() == old(bytes)@.len(),
{
    if size > userspace::MAX_IMAGE_PAGES * 4096 {
        return false;
    }
    userspace::map_user_pages_as(frames, bytes, cr3, virt_base, data, size, rights)
}

/// Maps the sections of an image. See `sections_mapped`.
fn map_sections(
    frames: &mut FrameAllocator,
    bytes: &mut [u8],
    cr3: u64,
    image_base: u64,
    data: &[u8],
    info: &PeInfo,
) -> (r: Result<usize, LoadError>)
    requires
        old(frames).wf(),
        paging::mem(old(frames), old(bytes)@).sane(),
        sections_mapped(
            paging::mem(old(frames), old(bytes)@),
            cr3 as int,
            image_base,
            data@,
            info@.sections,
            0,
            0,
        ) is Some,
    ensures
        final(frames).wf(),
        paging::mem(final(frames), final(bytes)@).sane(),
        Some((paging::mem(final(frames), final(bytes)@), r)) == sections_mapped(
            paging::mem(old(frames), old(bytes)@),
            cr3 as int,
            image_base,
            data@,
            info@.sections,
            0,
            0,
        ),
        final(bytes)@.len() == old(bytes)@.len(),
{
    let ghost m = paging::mem(frames, bytes@);
    let ghost secs = info@.sections;
    let mut loaded: usize = 0;
    let mut i: usize = 0;
    while i < info.sections.len()
        invariant
            i <= info.sections@.len(),
            loaded <= i,
            secs == info@.sections,
            m == paging::mem(old(frames), old(bytes)@),
            frames.wf(),
            paging::mem(frames, bytes@).sane(),
            bytes@.len() == old(bytes)@.len(),
            sections_mapped(m, cr3 as int, image_base, data@, secs, 0, 0) is Some,
            sections_mapped(m, cr3 as int, image_base, data@, secs, 0, 0) == sections_mapped(
                paging::mem(frames, bytes@),
                cr3 as int,
                image_base,
                data@,
                secs,
                i as int,
                loaded as int,
            ),
        decreases info.sections@.len() - i,
    {
        let s: ImageSectionHeader = info.sections[i];
        assert(s@ == secs[i as int]);
        let mem_size: u32 = if s.virtual_size > 0 {
            s.virtual_size
        } else {
            s.size_of_raw_data
        };
        if mem_size > 0 {
            if mem_size > MAX_SECTION_SIZE {
                return Err(LoadError::SectionTooLarge);
            }
            let virt_addr: u64 = image_base + s.virtual_address as u64;
            let raw_end: u64 = s.pointer_to_raw_data as u64 + s.size_of_raw_data as u64;
            let in_file: bool = s.size_of_raw_data > 0 && raw_end <= data.len() as u64;
            let (from, to): (usize, usize) = if in_file {
                (s.pointer_to_raw_data as usize, raw_end as usize)
            } else {
                (0, 0)
            };
            let part: &[u8] = vstd::slice::slice_subrange(data, from, to);
            assert(part@ =~= section_data(data@, s@));
            let rights: u64 = paging::rights(
                s.characteristics / pe::IMAGE_SCN_MEM_WRITE % 2 == 1,
                s.characteristics / pe::IMAGE_SCN_MEM_EXECUTE % 2 == 1,
            );
            if !map_block(frames, bytes, cr3, virt_addr, part, mem_size as usize, rights) {
                return Err(LoadError::OutOfMemory);
            }
            loaded = loaded + 1;
        }
        i = i + 1;
    }
    Ok(loaded)
}

/// Maps an image into an address space: headers, sections and stack. See
/// `image_mapped`.
fn map_image(
    frames: &mut FrameAllocator,
    bytes: &mut [u8],
    cr3: u64,
    data: &[u8],
    info: &PeInfo,
) -> (r: Result<usize, LoadError>)
    requires
        old(frames).wf(),
        paging::mem(old(frames), old(bytes)@).sane(),
        image_mapped(paging::mem(old(frames), old(bytes)@), cr3 as int, data@, info@) is Some,
    ensures
        final(frames).wf(),
        paging::mem(final(frames), final(bytes)@).sane(),
        Some((paging::mem(final(frames), final(bytes)@), r)) == image_mapped(
            paging::mem(old(frames), old(bytes)@),
            cr3 as int,
            data@,
            info@,
        ),
        final(bytes)@.len() == old(bytes)@.len(),
{
    let image_base: u64 = info.optional.image_base;
    let headers_size: u32 = info.optional.size_of_headers;
    if headers_size as u64 > data.len() as u64 {
        return Err(LoadError::InvalidPe(NTSTATUS(STATUS_INVALID_IMAGE_FORMAT)));
    }
    let headers: &[u8] = vstd::slice::slice_subrange(data, 0, headers_size as usize);
    proof {
        paging::law_rights_are_told(0, true, true);
    }
    if !map_block(
        frames,
        bytes,
        cr3,
        image_base,
        headers,
        headers_size as usize,
        paging::rights(true, true),
    ) {
        return Err(LoadError::OutOfMemory);
    }
    let loaded: usize = match map_sections(frames, bytes, cr3, image_base, data, info) {
        Ok(n) => n,
        Err(e) => {
            return Err(e);
        },
    };
    match userspace::alloc_user_stack(frames, bytes, cr3) {
        Some(_) => Ok(loaded),
        None => Err(LoadError::OutOfMemory),
    }
}

/// Loads a PE file into a new address space. `current_cr3` is the address space
/// to take the kernel's mappings from. Frames taken up to a failure stay taken.
pub fn load_pe(
    frames: &mut FrameAllocator,
    bytes: &mut [u8],
    current_cr3: u64,
    data: &[u8],
    _name: &str,
) -> (r: Result<LoadedImage, LoadError>)
    requires
        old(frames).wf(),
        paging::mem(old(frames), old(bytes)@).sane(),
        current_cr3 % 4096 == 0,
        current_cr3 + 4096 <= old(bytes).len(),
        pe_loaded(paging::mem(old(frames), old(bytes)@), current_cr3 as int, data@) is Some,
    ensures
        final(frames).wf(),
        paging::mem(final(frames), final(bytes)@).sane(),
        Some((paging::mem(final(frames), final(bytes)@), r)) == pe_loaded(
            paging::mem(old(frames), old(bytes)@),
            current_cr3 as int,
            data@,
        ),
        final(bytes)@.len() == old(bytes)@.len(),
{
    reveal(pe_loaded);
    let info: PeInfo = match pe::parse_pe(data) {
        Ok(i) => i,
        Err(e) => {
            return Err(LoadError::InvalidPe(e));
        },
    };
    if info.coff.machine != IMAGE_FILE_MACHINE_AMD64 {
        return Err(LoadError::WrongArchitecture);
    }
    if info.coff.characteristics / IMAGE_FILE_DLL % 2 == 1 {
        return Err(LoadError::NotExecutable);
    }
    if info.optional.size_of_image > MAX_IMAGE_SIZE {
        return Err(LoadError::ImageTooLarge);
    }
    proof {
        let m = paging::mem(frames, bytes@);
        if m.frames.lowest_free() is Some {
            space::lemma_fresh(m);
        }
    }
    let cr3: u64 = match userspace::create_address_space(frames, bytes, current_cr3) {
        Some(c) => c,
        None => {
            return Err(LoadError::OutOfMemory);
        },
    };
    match map_image(frames, bytes, cr3, data, &info) {
        Ok(sections_loaded) => Ok(
            LoadedImage {
                entry_point: info.optional.image_base + info.optional.address_of_entry_point as u64,
                image_base: info.optional.image_base,
                image_size: info.optional.size_of_image,
                sections_loaded,
                subsystem: info.optional.subsystem,
                machine: info.coff.machine,
                cr3,
                user_stack_top: userspace::USER_STACK_TOP,
            },
        ),
        Err(e) => Err(e),
    }
}

/// What `load_raw_binary` leaves in memory, and its result. `None` where the
/// loading cannot be carried out; see `block_mapped`.
pub open spec fn binary_loaded(m: Mem, current: int, code: Seq<u8>) -> Option<
    (Mem, Result<LoadedImage, LoadError>),
> {
    if m.frames.lowest_free() is None {
        Some((m, Err(LoadError::OutOfMemory)))
    } else {
        let cr3 = m.fresh_addr();
        let size = userspace::page_count(code.len() as int) * 4096;
        match block_mapped(
            userspace::space_made(m, current),
            cr3,
            userspace::USER_IMAGE_BASE as int,
            code,
            size,
            paging::map_flags(true),
        ) {
            None => None,
            Some((m1, false)) => Some((m1, Err(LoadError::OutOfMemory))),
            Some((m1, true)) => match stack_mapped(m1, cr3) {
                None => None,
                Some((m2, false)) => Some((m2, Err(LoadError::OutOfMemory))),
                Some((m2, true)) => Some(
                    (
                        m2,
                        Ok(
                            LoadedImage {
                                entry_point: userspace::USER_IMAGE_BASE,
                                image_base: userspace::USER_IMAGE_BASE,
                                image_size: size as u32,
                                sections_loaded: 1,
                                subsystem: 0,
                                machine: IMAGE_FILE_MACHINE_AMD64,
                                cr3: cr3 as u64,
                                user_stack_top: userspace::USER_STACK_TOP,
                            },
                        ),
                    ),
                ),
            },
        }
    }
}

/// Loads a bare binary at `USER_IMAGE_BASE`, where it also starts.
pub fn load_raw_binary(
    frames: &mut FrameAllocator,
    bytes: &mut [u8],
    current_cr3: u64,
    code: &[u8],
    _name: &str,
) -> (r: Result<LoadedImage, LoadError>)
    requires
        old(frames).wf(),
        paging::mem(old(frames), old(bytes)@).sane(),
        current_cr3 % 4096 == 0,
        current_cr3 + 4096 <= old(bytes).len(),
        code.len() + 4095 <= usize::MAX,
        binary_loaded(paging::mem(old(frames), old(bytes)@), current_cr3 as int, code@) is Some,
    ensures
        final(frames).wf(),
        paging::mem(final(frames), final(bytes)@).sane(),
        Some((paging::mem(final(frames), final(bytes)@), r)) == binary_loaded(
            paging::mem(old(frames), old(bytes)@),
            current_cr3 as int,
            code@,
        ),
        final(bytes)@.len() == old(bytes)@.len(),
{
    proof {
        let m = paging::mem(frames, bytes@);
        if m.frames.lowest_free() is Some {
            space::lemma_fresh(m);
        }
    }
    let cr3: u64 = match userspace::create_address_space(frames, bytes, current_cr3) {
        Some(c) => c,
        None => {
            return Err(LoadError::OutOfMemory);
        },
    };
    let image_size: usize = ((code.len() + 4095) / 4096) * 4096;
    proof {
        paging::law_rights_are_told(0, true, true);
    }
    let rights: u64 = paging::rights(true, true);
    if !map_block(frames, bytes, cr3, userspace::USER_IMAGE_BASE, code, image_size, rights) {
        return Err(LoadError::OutOfMemory);
    }
    match userspace::alloc_user_stack(frames, bytes, cr3) {
        Some(user_stack_top) => Ok(
            LoadedImage {
                entry_point: userspace::USER_IMAGE_BASE,
                image_base: userspace::USER_IMAGE_BASE,
                image_size: image_size as u32,
                sections_loaded: 1,
                subsystem: 0,
                machine: IMAGE_FILE_MACHINE_AMD64,
                cr3,
                user_stack_top,
            },
        ),
        None => Err(LoadError::OutOfMemory),
    }
}

/// The subsystem of an image in words.
pub fn subsystem_name(subsystem: u16) -> (r: &'static str)
    ensures
        subsystem == IMAGE_SUBSYSTEM_WINDOWS_GUI ==> r@ == "GUI"@,
        subsystem == IMAGE_SUBSYSTEM_WINDOWS_CUI ==> r@ == "Console"@,
        subsystem == IMAGE_SUBSYSTEM_NATIVE ==> r@ == "Native"@,
        subsystem != IMAGE_SUBSYSTEM_WINDOWS_GUI && subsystem != IMAGE_SUBSYSTEM_WINDOWS_CUI
            && subsystem != IMAGE_SUBSYSTEM_NATIVE ==> r@ == "Unknown"@,
{
    match subsystem {
        IMAGE_SUBSYSTEM_WINDOWS_GUI => "GUI",
        IMAGE_SUBSYSTEM_WINDOWS_CUI => "Console",
        IMAGE_SUBSYSTEM_NATIVE => "Native",
        _ => "Unknown",
    }
}

/// The name of a section, without the zeros behind it.
pub fn section_name(section: &ImageSectionHeader) -> (r: Vec<u8>)
    ensures
        r@ == task::name_of(section.name@),
{
    let mut r: Vec<u8> = Vec::new();
    let mut len: usize = 0;
    while len < 8 && section.name[len] != 0
        invariant
            len <= 8,
            r@ == section.name@.subrange(0, len as int),
            forall|j: int| 0 <= j < len ==> section.name@[j] != 0,
        decreases 8 - len,
    {
        r.push(section.name[len]);
        len = len + 1;
        assert(r@ =~= section.name@.subrange(0, len as int));
    }
    proof {
        task::lemma_name_of(section.name@, len as int);
    }
    r
}

/// Section `i` holds the relative address `rva`.
pub open spec fn section_holds(sections: Seq<Section>, i: int, rva: int) -> bool {
    sections[i].virtual_address <= rva < sections[i].virtual_address + section_size(sections[i])
}

/// Where in the file a relative address is: in the first section that holds it.
pub open spec fn offset_of(sections: Seq<Section>, rva: int) -> Option<int> {
    match search::first(sections.len(), |i: int| section_holds(sections, i, rva)) {
        Some(i) => Some(
            sections[i as int].pointer_to_raw_data + (rva - sections[i as int].virtual_address),
        ),
        None => None,
    }
}

/// Finds where in the file a relative address is.
pub fn rva_to_offset(rva: u64, info: &PeInfo) -> (r: Option<u64>)
    ensures
        match r {
            Some(o) => offset_of(info@.sections, rva as int) == Some(o as int) && rva
                < 0x2_0000_0000 && o < 0x3_0000_0000,
            None => offset_of(info@.sections, rva as int) is None,
        },
{
    let ghost secs = info@.sections;
    let ghost p = |i: int| section_holds(secs, i, rva as int);
    let mut i: usize = 0;
    while i < info.sections.len()
        invariant
            i <= info.sections@.len(),
            secs == info@.sections,
            p == (|i: int| section_holds(secs, i, rva as int)),
            forall|j: int| 0 <= j < i ==> !#[trigger] p(j),
        decreases info.sections@.len() - i,
    {
        let s: ImageSectionHeader = info.sections[i];
        assert(s@ == secs[i as int]);
        let size: u32 = if s.virtual_size > 0 {
            s.virtual_size
        } else {
            s.size_of_raw_data
        };
        if rva >= s.virtual_address as u64 && rva < s.virtual_address as u64 + size as u64 {
            proof {
                assert(p(i as int));
                search::lemma_first_is(secs.len(), p, i);
            }
            return Some(s.pointer_to_raw_data as u64 + (rva - s.virtual_address as u64));
        }
        i = i + 1;
    }
    proof {
        search::lemma_first_none(secs.len(), p);
    }
    None
}

/// The name of a library at a place of the file: up to the closing zero, the
/// end of the file or 129 bytes.
pub open spec fn name_at(data: Seq<u8>, at: int) -> Seq<u8> {
    let end = if at + 129 < data.len() {
        at + 129
    } else {
        data.len() as int
    };
    task::name_of(data.subrange(at, end))
}

/// The names that one import descriptor contributes: one, unless no section
/// holds it.
pub open spec fn import_name(data: Seq<u8>, sections: Seq<Section>, name: u32) -> Seq<Seq<u8>> {
    match offset_of(sections, name as int) {
        Some(o) => seq![name_at(data, o)],
        None => Seq::empty(),
    }
}

/// The import descriptor at a relative address, unless it is the closing one or
/// does not lie in the file.
pub open spec fn import_at(data: Seq<u8>, sections: Seq<Section>, rva: int) -> Option<
    pe::ImageImportDescriptor,
> {
    match offset_of(sections, rva) {
        None => None,
        Some(o) => {
            let d = pe::import_descriptor_at(data, o);
            if rva >= 0x2_0000_0000 || o + 20 > data.len() || (d.name == 0
                && d.original_first_thunk == 0) {
                None
            } else {
                Some(d)
            }
        },
    }
}

/// The names of the libraries in the import table from a relative address on.
pub open spec fn imports_from(data: Seq<u8>, sections: Seq<Section>, rva: int) -> Seq<Seq<u8>>
    decreases 0x2_0000_0014 - rva,
{
    match import_at(data, sections, rva) {
        None => Seq::empty(),
        Some(d) => import_name(data, sections, d.name) + imports_from(data, sections, rva + 20),
    }
}

/// The names in the import table lie in the file.
pub open spec fn names_in_file(data: Seq<u8>, sections: Seq<Section>, rva: int) -> bool
    decreases 0x2_0000_0014 - rva,
{
    match import_at(data, sections, rva) {
        None => true,
        Some(d) => (offset_of(sections, d.name as int) matches Some(o) ==> o <= data.len())
            && names_in_file(data, sections, rva + 20),
    }
}

/// Where the import table is, if the file has one.
pub open spec fn import_table(data: Seq<u8>, v: Pe) -> Option<int> {
    let dirs = v.optional.number_of_rva_and_sizes;
    let at = v.lfanew + 24 + 112;
    let d = pe::data_directory_at(data, at + 8 * pe::IMAGE_DIRECTORY_ENTRY_IMPORT);
    if dirs <= pe::IMAGE_DIRECTORY_ENTRY_IMPORT || at + 8 * dirs > data.len()
        || d.virtual_address == 0 || d.size == 0 {
        None
    } else {
        Some(d.virtual_address as int)
    }
}

/// The names of the libraries that an image imports from.
pub open spec fn imports(data: Seq<u8>, v: Pe) -> Seq<Seq<u8>> {
    match import_table(data, v) {
        Some(rva) => imports_from(data, v.sections, rva),
        None => Seq::empty(),
    }
}

/// Byte strings as sequences.
pub open spec fn strings(v: Seq<Vec<u8>>) -> Seq<Seq<u8>> {
    Seq::new(v.len(), |i: int| v[i]@)
}

/// Reads the name of a library at a place of the file.
fn read_name(data: &[u8], at: usize) -> (r: Vec<u8>)
    requires
        at <= data.len(),
    ensures
        r@ == name_at(data@, at as int),
{
    let room: usize = data.len() - at;
    let cap: usize = if room > 129 {
        129
    } else {
        room
    };
    let ghost buf = data@.subrange(at as int, at + cap);
    let mut r: Vec<u8> = Vec::new();
    let mut len: usize = 0;
    while len < cap && data[at + len] != 0
        invariant
            len <= cap,
            at + cap <= data.len(),
            buf == data@.subrange(at as int, at + cap),
            r@ == buf.subrange(0, len as int),
            forall|j: int| 0 <= j < len ==> buf[j] != 0,
        decreases cap - len,
    {
        r.push(data[at + len]);
        len = len + 1;
        assert(r@ =~= buf.subrange(0, len as int));
    }
    proof {
        task::lemma_name_of(buf, len as int);
    }
    r
}

/// Walks the import table of an image, and returns the names of the libraries
/// in it.
pub fn log_imports(data: &[u8], info: &PeInfo) -> (r: Vec<Vec<u8>>)
    requires
        info@.lfanew >= 0,
        import_table(data@, info@) matches Some(rva) ==> names_in_file(
            data@,
            info@.sections,
            rva,
        ),
    ensures
        strings(r@) == imports(data@, info@),
{
    let mut names: Vec<Vec<u8>> = Vec::new();
    let num_dirs: u64 = info.optional.number_of_rva_and_sizes as u64;
    let dir_offset: u64 = info.dos.e_lfanew as u64 + 4 + 20 + 112;
    if num_dirs <= pe::IMAGE_DIRECTORY_ENTRY_IMPORT as u64 || dir_offset + num_dirs * 8
        > data.len() as u64 {
        assert(strings(names@) =~= Seq::empty());
        return names;
    }
    let dir = pe::read_data_directory(data, dir_offset as usize + 8);
    if dir.virtual_address == 0 || dir.size == 0 {
        assert(strings(names@) =~= Seq::empty());
        return names;
    }
    let ghost secs = info@.sections;
    let ghost want = imports(data@, info@);
    let mut rva: u64 = dir.virtual_address as u64;
    assert(strings(names@) =~= Seq::empty());
    assert(want =~= strings(names@) + imports_from(data@, secs, rva as int));
    loop
        invariant
            secs == info@.sections,
            rva < 0x2_0000_0014,
            names_in_file(data@, secs, rva as int),
            want == strings(names@) + imports_from(data@, secs, rva as int),
        ensures
            want == strings(names@),
        decreases 0x3_0000_0000 - rva,
    {
        let at: u64 = match rva_to_offset(rva, info) {
            Some(o) => o,
            None => {
                assert(want =~= strings(names@));
                break;
            },
        };
        if at + 20 > data.len() as u64 {
            assert(want =~= strings(names@));
            break;
        }
        let d = pe::read_import_descriptor(data, at as usize);
        if d.name == 0 && d.original_first_thunk == 0 {
            assert(want =~= strings(names@));
            break;
        }
        let ghost before = names@;
        match rva_to_offset(d.name as u64, info) {
            Some(o) => {
                names.push(read_name(data, o as usize));
            },
            None => {},
        }
        proof {
            assert(strings(names@) =~= strings(before) + import_name(data@, secs, d.name));
            assert(want =~= strings(names@) + imports_from(data@, secs, rva + 20));
        }
        rva = rva + 20;
    }
    names
}

/// Where a section starts in memory.
pub open spec fn section_start(base: u64, s: Section) -> int {
    base + s.virtual_address
}

/// Where the last page of a section ends in memory.
pub open spec fn section_end(base: u64, s: Section) -> int {
    section_start(base, s) + userspace::page_count(section_size(s) as int) * 4096
}

/// The sections start on pages, lie below `limit`, and no two of them share a
/// page. Empty sections do not count.
pub open spec fn laid_out(base: u64, sections: Seq<Section>, limit: int) -> bool {
    &&& limit <= 0x1_0000_0000_0000
    &&& forall|i: int|
        0 <= i < sections.len() && section_size(#[trigger] sections[i]) > 0 ==> section_start(
            base,
            sections[i],
        ) % 4096 == 0 && section_end(base, sections[i]) <= limit
    &&& forall|i: int, j: int|
        0 <= i < j < sections.len() && section_size(#[trigger] sections[i]) > 0 && section_size(
            #[trigger] sections[j],
        ) > 0 ==> section_end(base, sections[i]) <= section_start(base, sections[j]) || section_end(
            base,
            sections[j],
        ) <= section_start(base, sections[i])
}

/// The pages of a section hold its bytes and have its flags.
pub open spec fn section_shown(w: Mem, cr3: int, base: u64, data: Seq<u8>, s: Section) -> bool {
    userspace::pages_hold(
        w,
        cr3,
        section_start(base, s) as u64,
        section_data(data, s),
        section_rights(s),
        0,
        userspace::page_count(section_size(s) as int),
    )
}

/// A virtual address lies in none of the sections from `i` on.
pub open spec fn outside(base: u64, sections: Seq<Section>, i: int, v: u64) -> bool {
    forall|j: int|
        i <= j < sections.len() && section_size(#[trigger] sections[j]) > 0 ==> !(section_start(
            base,
            sections[j],
        ) <= v % 0x1_0000_0000_0000 < section_end(base, sections[j]))
}

/// What a section shows stays while other pages are mapped.
proof fn lemma_section_kept(
    m: Mem,
    w: Mem,
    cr3: int,
    base: u64,
    data: Seq<u8>,
    s: Section,
    limit: int,
)
    requires
        m.space_wf(cr3),
        space::only_tables_change(m, w, cr3),
        section_shown(m, cr3, base, data, s),
        section_start(base, s) % 4096 == 0,
        section_end(base, s) <= limit,
        limit <= 0x1_0000_0000_0000,
        forall|v: u64|
            section_start(base, s) <= v < section_end(base, s) ==> #[trigger] w.leaf(cr3, v)
                == m.leaf(cr3, v),
    ensures
        section_shown(w, cr3, base, data, s),
{
    let start = section_start(base, s) as u64;
    let n = userspace::page_count(section_size(s) as int);
    let d = section_data(data, s);
    assert forall|j: int| 0 <= j < n implies userspace::page_holds(
        w,
        cr3,
        (start + j * 4096) as u64,
        #[trigger] userspace::page_of(d, j),
        section_rights(s),
    ) by {
        let v = (start + j * 4096) as u64;
        assert(userspace::page_holds(m, cr3, v, userspace::page_of(d, j), section_rights(s)));
        assert(w.leaf(cr3, v) == m.leaf(cr3, v));
        userspace::lemma_frame_kept(
            m,
            w,
            cr3,
            m.leaf(cr3, v)->0.target(),
            userspace::page_of(d, j),
        );
    }
}

/// What holds of the sections behind `i`, and of section `i` once it is mapped,
/// holds of the sections from `i` on.
proof fn lemma_section_step(
    m: Mem,
    m1: Mem,
    w: Mem,
    cr3: int,
    base: u64,
    data: Seq<u8>,
    sections: Seq<Section>,
    i: int,
    limit: int,
)
    requires
        m.space_wf(cr3),
        m1.space_wf(cr3),
        w.space_wf(cr3),
        space::only_tables_change(m, m1, cr3),
        space::only_tables_change(m1, w, cr3),
        laid_out(base, sections, limit),
        0 <= i < sections.len(),
        section_size(sections[i]) > 0,
        section_shown(m1, cr3, base, data, sections[i]),
        userspace::others_kept(
            m,
            m1,
            cr3,
            section_start(base, sections[i]),
            section_end(base, sections[i]),
        ),
        forall|j: int|
            i + 1 <= j < sections.len() && section_size(#[trigger] sections[j]) > 0
                ==> section_shown(w, cr3, base, data, sections[j]),
        forall|v: u64|
            outside(base, sections, i + 1, v) ==> #[trigger] w.leaf(cr3, v) == m1.leaf(cr3, v),
    ensures
        space::only_tables_change(m, w, cr3),
        forall|j: int|
            i <= j < sections.len() && section_size(#[trigger] sections[j]) > 0 ==> section_shown(
                w,
                cr3,
                base,
                data,
                sections[j],
            ),
        forall|v: u64|
            outside(base, sections, i, v) ==> #[trigger] w.leaf(cr3, v) == m.leaf(cr3, v),
{
    let s = sections[i];
    space::lemma_change_chains(m, m1, w, cr3);
    assert forall|v: u64|
        section_start(base, s) <= v < section_end(base, s) implies #[trigger] w.leaf(cr3, v)
        == m1.leaf(cr3, v) by {
        assert(outside(base, sections, i + 1, v));
    }
    lemma_section_kept(m1, w, cr3, base, data, s, limit);
    assert forall|v: u64| outside(base, sections, i, v) implies #[trigger] w.leaf(cr3, v)
        == m.leaf(cr3, v) by {
        assert(outside(base, sections, i + 1, v));
        assert(!(section_start(base, s) <= v % 0x1_0000_0000_0000 < section_end(base, s)));
        assert(m1.leaf(cr3, v) == m.leaf(cr3, v));
    }
}

/// `sections_mapped` step by step: the sections from `i` on show their bytes,
/// and pages outside of them do not change.
proof fn lemma_sections(
    m: Mem,
    cr3: int,
    base: u64,
    data: Seq<u8>,
    sections: Seq<Section>,
    i: int,
    loaded: int,
    limit: int,
    w: Mem,
)
    requires
        m.space_wf(cr3),
        laid_out(base, sections, limit),
        0 <= i,
        sections_mapped(m, cr3, base, data, sections, i, loaded) matches Some((x, Ok(_))) && x == w,
    ensures
        w.space_wf(cr3),
        space::only_tables_change(m, w, cr3),
        forall|j: int|
            i <= j < sections.len() && section_size(#[trigger] sections[j]) > 0 ==> section_shown(
                w,
                cr3,
                base,
                data,
                sections[j],
            ),
        forall|v: u64|
            outside(base, sections, i, v) ==> #[trigger] w.leaf(cr3, v) == m.leaf(cr3, v),
    decreases sections.len() - i,
{
    if i < sections.len() {
        let s = sections[i];
        if section_size(s) == 0 {
            lemma_sections(m, cr3, base, data, sections, i + 1, loaded, limit, w);
            assert forall|v: u64| outside(base, sections, i, v) implies #[trigger] w.leaf(cr3, v)
                == m.leaf(cr3, v) by {
                assert(outside(base, sections, i + 1, v));
            }
        } else {
            let start = section_start(base, s) as u64;
            let n = userspace::page_count(section_size(s) as int);
            let d = section_data(data, s);
            let r = section_rights(s);
            let (m1, _) = block_mapped(
                m,
                cr3,
                base + s.virtual_address,
                d,
                section_size(s) as int,
                r,
            )->0;
            space::lemma_user_rights(section_writable(s), section_executable(s));
            userspace::lemma_pages(m, cr3, start, d, r, 0, n);
            assert(section_shown(m1, cr3, base, data, s));
            lemma_sections(m1, cr3, base, data, sections, i + 1, loaded + 1, limit, w);
            lemma_section_step(m, m1, w, cr3, base, data, sections, i, limit);
        }
    } else {
        space::lemma_no_change(m, cr3);
    }
}

/// An image is loaded at the base that its headers name.
proof fn lemma_loaded_at_base(m: Mem, current: int, data: Seq<u8>, w: Mem, image: LoadedImage)
    requires
        pe_loaded(m, current, data) == Some((w, Ok::<LoadedImage, LoadError>(image))),
    ensures
        image.image_base == pe::pe_of(data).optional.image_base,
{
    reveal(pe_loaded);
}

/// The memory while an image is loaded: with the address space, with the headers
/// and with the sections.
pub struct Stages {
    pub space: Mem,
    pub headers: Mem,
    pub sections: Mem,
}

/// Loading an image passes through the stages: each one keeps the address space
/// in order and changes the pages that it is for alone.
pub open spec fn through(
    s: Stages,
    m: Mem,
    current: int,
    data: Seq<u8>,
    w: Mem,
    image: LoadedImage,
) -> bool {
    let v = pe::pe_of(data);
    let cr3 = image.cr3 as int;
    let base = image.image_base;
    let headers = v.optional.size_of_headers as int;
    let n = userspace::page_count(headers);
    let d = data.subrange(0, headers);
    let bottom = (userspace::USER_STACK_TOP - userspace::USER_STACK_SIZE) as u64;
    &&& headers <= data.len()
    &&& s.space == userspace::space_made(m, current)
    &&& cr3 == m.fresh_addr()
    &&& s.headers.space_wf(cr3)
    &&& userspace::pages_hold(s.headers, cr3, base, d, paging::map_flags(true), 0, n)
    &&& userspace::others_kept(s.space, s.headers, cr3, base as int, base + n * 4096)
    &&& s.sections.space_wf(cr3)
    &&& space::only_tables_change(s.headers, s.sections, cr3)
    &&& forall|j: int|
        0 <= j < v.sections.len() && section_size(#[trigger] v.sections[j]) > 0
            ==> section_shown(s.sections, cr3, base, data, v.sections[j])
    &&& forall|a: u64|
        outside(base, v.sections, 0, a) ==> #[trigger] s.sections.leaf(cr3, a)
            == s.headers.leaf(cr3, a)
    &&& w.space_wf(cr3)
    &&& space::only_tables_change(s.sections, w, cr3)
    &&& userspace::pages_hold(w, cr3, bottom, Seq::empty(), paging::map_flags(true), 0, 16)
    &&& userspace::others_kept(s.sections, w, cr3, bottom as int, bottom + 0x1_0000)
}

/// Loading an image passes through its stages. See `through`.
proof fn lemma_stages(m: Mem, current: int, data: Seq<u8>, w: Mem, image: LoadedImage) -> (s: Stages)
    requires
        m.space_wf(current),
        pe_loaded(m, current, data) == Some((w, Ok::<LoadedImage, LoadError>(image))),
        image.image_base % 4096 == 0,
        image.image_base + userspace::page_count(
            pe::pe_of(data).optional.size_of_headers as int,
        ) * 4096 <= 0x1_0000_0000_0000,
        laid_out(
            image.image_base,
            pe::pe_of(data).sections,
            userspace::USER_STACK_TOP - userspace::USER_STACK_SIZE,
        ),
    ensures
        image.image_base == pe::pe_of(data).optional.image_base,
        m.frames.lowest_free() is Some,
        through(s, m, current, data, w, image),
{
    reveal(pe_loaded);
    space::lemma_space_sane(m, current);
    let v = pe::pe_of(data);
    let base = v.optional.image_base;
    let cr3 = m.fresh_addr();
    let bottom = (userspace::USER_STACK_TOP - userspace::USER_STACK_SIZE) as u64;
    space::lemma_fresh(m);
    let m0 = userspace::space_made(m, current);
    assert(m0.space_wf(cr3)) by {
        userspace::law_new_space_holds_the_kernel_alone(m, current);
    }
    let headers = v.optional.size_of_headers as int;
    let n = userspace::page_count(headers);
    let d = data.subrange(0, headers);
    let rights = paging::map_flags(true);
    space::lemma_map_flags(true);
    let (m1, _) = block_mapped(m0, cr3, base as int, d, headers, rights)->0;
    userspace::lemma_pages(m0, cr3, base, d, rights, 0, n);
    let (m2, _) = sections_mapped(m1, cr3, base, data, v.sections, 0, 0)->0;
    lemma_sections(m1, cr3, base, data, v.sections, 0, 0, bottom as int, m2);
    userspace::lemma_pages(m2, cr3, bottom, Seq::empty(), rights, 0, 16);
    Stages { space: m0, headers: m1, sections: m2 }
}

/// After loading an image the pages of each section hold its bytes.
proof fn lemma_image_shown(m: Mem, current: int, data: Seq<u8>, w: Mem, image: LoadedImage, j: int)
    requires
        m.space_wf(current),
        pe_loaded(m, current, data) == Some((w, Ok::<LoadedImage, LoadError>(image))),
        image.image_base % 4096 == 0,
        image.image_base + userspace::page_count(
            pe::pe_of(data).optional.size_of_headers as int,
        ) * 4096 <= 0x1_0000_0000_0000,
        laid_out(
            image.image_base,
            pe::pe_of(data).sections,
            userspace::USER_STACK_TOP - userspace::USER_STACK_SIZE,
        ),
        0 <= j < pe::pe_of(data).sections.len(),
        section_size(pe::pe_of(data).sections[j]) > 0,
    ensures
        w.space_wf(image.cr3 as int),
        section_shown(w, image.cr3 as int, image.image_base, data, pe::pe_of(data).sections[j]),
{
    let s = lemma_stages(m, current, data, w, image);
    let bottom = userspace::USER_STACK_TOP - userspace::USER_STACK_SIZE;
    lemma_section_kept(
        s.sections,
        w,
        image.cr3 as int,
        image.image_base,
        data,
        pe::pe_of(data).sections[j],
        bottom,
    );
}

/// A program that was loaded finds each of its sections at the image base plus
/// the section's address: the bytes that the file holds, and zeros behind them
/// up to the end of the last page. This holds of images whose sections start on
/// pages below the user stack and share no page.
pub proof fn law_loaded_image_shows_its_sections(
    m: Mem,
    current: int,
    data: Seq<u8>,
    w: Mem,
    image: LoadedImage,
    j: int,
)
    requires
        m.space_wf(current),
        pe_loaded(m, current, data) == Some((w, Ok::<LoadedImage, LoadError>(image))),
        image.image_base % 4096 == 0,
        image.image_base + userspace::page_count(
            pe::pe_of(data).optional.size_of_headers as int,
        ) * 4096 <= 0x1_0000_0000_0000,
        laid_out(
            image.image_base,
            pe::pe_of(data).sections,
            userspace::USER_STACK_TOP - userspace::USER_STACK_SIZE,
        ),
        0 <= j < pe::pe_of(data).sections.len(),
        section_size(pe::pe_of(data).sections[j]) > 0,
    ensures
        w.space_wf(image.cr3 as int),
        ({
            let s = pe::pe_of(data).sections[j];
            let bytes = section_data(data, s);
            forall|k: int|
                0 <= k < userspace::page_count(section_size(s) as int) * 4096
                    ==> #[trigger] userspace::byte_at(
                    w,
                    image.cr3 as int,
                    (section_start(image.image_base, s) + k) as u64,
                ) == Some(
                    if k < bytes.len() {
                        bytes[k]
                    } else {
                        0
                    },
                )
        }),
{
    lemma_image_shown(m, current, data, w, image, j);
    let s = pe::pe_of(data).sections[j];
    let base = image.image_base;
    let cr3 = image.cr3 as int;
    space::lemma_space_sane(w, cr3);
    userspace::lemma_bytes_at(
        w,
        cr3,
        section_start(base, s) as u64,
        section_data(data, s),
        section_rights(s),
        userspace::page_count(section_size(s) as int),
    );
    let bytes = section_data(data, s);
    assert forall|k: int|
        0 <= k < userspace::page_count(section_size(s) as int)
            * 4096 implies #[trigger] userspace::byte_at(
        w,
        image.cr3 as int,
        (section_start(image.image_base, s) + k) as u64,
    ) == Some(
        if k < bytes.len() {
            bytes[k]
        } else {
            0
        },
    ) by {
        assert(userspace::byte_at(w, cr3, (section_start(base, s) as u64 + k) as u64) is Some);
    }
}

/// A program that was loaded may write to a section if the section's
/// characteristics say so, and execute it if they say so. This holds of images
/// whose sections start on pages below the user stack and share no page.
pub proof fn law_loaded_sections_have_their_rights(
    m: Mem,
    current: int,
    data: Seq<u8>,
    w: Mem,
    image: LoadedImage,
    j: int,
    page: int,
)
    requires
        m.space_wf(current),
        pe_loaded(m, current, data) == Some((w, Ok::<LoadedImage, LoadError>(image))),
        image.image_base % 4096 == 0,
        image.image_base + userspace::page_count(
            pe::pe_of(data).optional.size_of_headers as int,
        ) * 4096 <= 0x1_0000_0000_0000,
        laid_out(
            image.image_base,
            pe::pe_of(data).sections,
            userspace::USER_STACK_TOP - userspace::USER_STACK_SIZE,
        ),
        0 <= j < pe::pe_of(data).sections.len(),
        section_size(pe::pe_of(data).sections[j]) > 0,
        0 <= page < userspace::page_count(section_size(pe::pe_of(data).sections[j]) as int),
    ensures
        ({
            let s = pe::pe_of(data).sections[j];
            let v = (section_start(image.image_base, s) + page * 4096) as u64;
            w.leaf(image.cr3 as int, v) matches Some(e) && {
                &&& e.user()
                &&& e.writable() == section_writable(s)
                &&& e.executable() == section_executable(s)
            }
        }),
{
    lemma_image_shown(m, current, data, w, image, j);
    let s = pe::pe_of(data).sections[j];
    let d = section_data(data, s);
    let start = section_start(image.image_base, s) as u64;
    let v = (start + page * 4096) as u64;
    assert(userspace::page_holds(
        w,
        image.cr3 as int,
        v,
        userspace::page_of(d, page),
        section_rights(s),
    ));
    paging::law_rights_are_told(
        w.leaf(image.cr3 as int, v)->0.target() as u64,
        section_writable(s),
        section_executable(s),
    );
}

/// The pages of the headers share no page with a section and lie below `limit`.
pub open spec fn headers_apart(v: pe::Pe, limit: int) -> bool {
    let base = v.optional.image_base;
    let end = base + userspace::page_count(v.optional.size_of_headers as int) * 4096;
    &&& end <= limit
    &&& forall|i: int|
        0 <= i < v.sections.len() && section_size(#[trigger] v.sections[i]) > 0 ==> section_start(
            base,
            v.sections[i],
        ) >= end || section_end(base, v.sections[i]) <= base
}

/// Pages stay as they are while no page from `start` on changes.
proof fn lemma_pages_kept(m: Mem, w: Mem, cr3: int, start: u64, d: Seq<u8>, rights: u64, n: int)
    requires
        m.space_wf(cr3),
        space::only_tables_change(m, w, cr3),
        start + n * 4096 <= 0x1_0000_0000_0000,
        userspace::pages_hold(m, cr3, start, d, rights, 0, n),
        forall|v: u64|
            start <= v < start + n * 4096 ==> #[trigger] w.leaf(cr3, v) == m.leaf(cr3, v),
    ensures
        userspace::pages_hold(w, cr3, start, d, rights, 0, n),
{
    assert forall|j: int| 0 <= j < n implies userspace::page_holds(
        w,
        cr3,
        (start + j * 4096) as u64,
        #[trigger] userspace::page_of(d, j),
        rights,
    ) by {
        let v = (start + j * 4096) as u64;
        assert(userspace::page_holds(m, cr3, v, userspace::page_of(d, j), rights));
        assert(w.leaf(cr3, v) == m.leaf(cr3, v));
        userspace::lemma_frame_kept(
            m,
            w,
            cr3,
            m.leaf(cr3, v)->0.target(),
            userspace::page_of(d, j),
        );
    }
}

/// Through the stages the pages of the headers and of the stack hold their bytes,
/// and the upper half stays that of the kernel.
proof fn lemma_frame_of_image(
    s: Stages,
    m: Mem,
    current: int,
    data: Seq<u8>,
    w: Mem,
    image: LoadedImage,
)
    requires
        m.space_wf(current),
        m.frames.lowest_free() is Some,
        through(s, m, current, data, w, image),
        image.image_base == pe::pe_of(data).optional.image_base,
        headers_apart(
            pe::pe_of(data),
            userspace::USER_STACK_TOP - userspace::USER_STACK_SIZE,
        ),
        laid_out(
            image.image_base,
            pe::pe_of(data).sections,
            userspace::USER_STACK_TOP - userspace::USER_STACK_SIZE,
        ),
    ensures
        w.space_wf(image.cr3 as int),
        ({
            let headers = pe::pe_of(data).optional.size_of_headers as int;
            userspace::pages_hold(
                w,
                image.cr3 as int,
                image.image_base,
                data.subrange(0, headers),
                paging::map_flags(true),
                0,
                userspace::page_count(headers),
            )
        }),
        userspace::pages_hold(
            w,
            image.cr3 as int,
            (userspace::USER_STACK_TOP - userspace::USER_STACK_SIZE) as u64,
            Seq::empty(),
            paging::map_flags(true),
            0,
            16,
        ),
        forall|v: u64|
            v % 0x1_0000_0000_0000 >= 0x8000_0000_0000 ==> #[trigger] w.leaf(image.cr3 as int, v)
                == m.leaf(current, v),
{
    let v = pe::pe_of(data);
    let base = image.image_base;
    let cr3 = image.cr3 as int;
    let headers = v.optional.size_of_headers as int;
    let n = userspace::page_count(headers);
    let d = data.subrange(0, headers);
    assert forall|a: u64| base <= a < base + n * 4096 implies #[trigger] s.sections.leaf(cr3, a)
        == s.headers.leaf(cr3, a) by {
        assert(outside(base, v.sections, 0, a));
    }
    lemma_pages_kept(s.headers, s.sections, cr3, base, d, paging::map_flags(true), n);
    lemma_pages_kept(s.sections, w, cr3, base, d, paging::map_flags(true), n);
    assert forall|a: u64|
        a % 0x1_0000_0000_0000 >= 0x8000_0000_0000 implies #[trigger] w.leaf(cr3, a) == m.leaf(
        current,
        a,
    ) by {
        space::lemma_space_sane(m, current);
        userspace::law_new_space_holds_the_kernel_alone(m, current);
        assert(outside(base, v.sections, 0, a));
        assert(w.leaf(cr3, a) == s.sections.leaf(cr3, a));
        assert(s.sections.leaf(cr3, a) == s.headers.leaf(cr3, a));
        assert(s.headers.leaf(cr3, a) == s.space.leaf(cr3, a));
    }
}

/// A program that was loaded finds its headers at the image base, zeros behind
/// them up to the end of the last page, a zeroed stack below `USER_STACK_TOP`,
/// and the kernel in the upper half. This holds of images whose headers and
/// sections start on pages below the user stack and share no page.
pub proof fn law_loaded_image_has_headers_and_stack(
    m: Mem,
    current: int,
    data: Seq<u8>,
    w: Mem,
    image: LoadedImage,
)
    requires
        m.space_wf(current),
        pe_loaded(m, current, data) == Some((w, Ok::<LoadedImage, LoadError>(image))),
        image.image_base % 4096 == 0,
        laid_out(
            image.image_base,
            pe::pe_of(data).sections,
            userspace::USER_STACK_TOP - userspace::USER_STACK_SIZE,
        ),
        headers_apart(
            pe::pe_of(data),
            userspace::USER_STACK_TOP - userspace::USER_STACK_SIZE,
        ),
    ensures
        w.space_wf(image.cr3 as int),
        ({
            let headers = pe::pe_of(data).optional.size_of_headers as int;
            forall|k: int|
                0 <= k < userspace::page_count(headers) * 4096 ==> #[trigger] userspace::byte_at(
                    w,
                    image.cr3 as int,
                    (image.image_base + k) as u64,
                ) == Some(
                    if k < headers {
                        data[k]
                    } else {
                        0
                    },
                )
        }),
        forall|k: int|
            0 <= k < userspace::USER_STACK_SIZE ==> #[trigger] userspace::byte_at(
                w,
                image.cr3 as int,
                (userspace::USER_STACK_TOP - userspace::USER_STACK_SIZE + k) as u64,
            ) == Some(0u8),
        forall|v: u64|
            v % 0x1_0000_0000_0000 >= 0x8000_0000_0000 ==> #[trigger] w.leaf(image.cr3 as int, v)
                == m.leaf(current, v),
{
    lemma_loaded_at_base(m, current, data, w, image);
    let s = lemma_stages(m, current, data, w, image);
    lemma_frame_of_image(s, m, current, data, w, image);
    let cr3 = image.cr3 as int;
    let headers = pe::pe_of(data).optional.size_of_headers as int;
    let bottom = (userspace::USER_STACK_TOP - userspace::USER_STACK_SIZE) as u64;
    let d = data.subrange(0, headers);
    space::lemma_space_sane(w, cr3);
    let rights = paging::map_flags(true);
    userspace::lemma_bytes_at(w, cr3, image.image_base, d, rights, userspace::page_count(headers));
    userspace::lemma_bytes_at(w, cr3, bottom, Seq::empty(), rights, 16);
    assert forall|k: int| 0 <= k < userspace::USER_STACK_SIZE implies #[trigger] userspace::byte_at(
        w,
        cr3,
        (userspace::USER_STACK_TOP - userspace::USER_STACK_SIZE + k) as u64,
    ) == Some(0u8) by {
        assert(userspace::byte_at(w, cr3, (bottom + k) as u64) == Some(0u8));
    }
}

/// A bare binary that was loaded is found at `USER_IMAGE_BASE`, with zeros
/// behind it up to the end of the last page, a zeroed stack below
/// `USER_STACK_TOP`, and the kernel in the upper half.
pub proof fn law_loaded_binary_is_found(
    m: Mem,
    current: int,
    code: Seq<u8>,
    w: Mem,
    image: LoadedImage,
)
    requires
        m.space_wf(current),
        binary_loaded(m, current, code) == Some((w, Ok::<LoadedImage, LoadError>(image))),
    ensures
        w.space_wf(image.cr3 as int),
        forall|k: int|
            0 <= k < userspace::page_count(code.len() as int) * 4096
                ==> #[trigger] userspace::byte_at(
                w,
                image.cr3 as int,
                (userspace::USER_IMAGE_BASE + k) as u64,
            ) == Some(
                if k < code.len() {
                    code[k]
                } else {
                    0
                },
            ),
        forall|k: int|
            0 <= k < userspace::USER_STACK_SIZE ==> #[trigger] userspace::byte_at(
                w,
                image.cr3 as int,
                (userspace::USER_STACK_TOP - userspace::USER_STACK_SIZE + k) as u64,
            ) == Some(0u8),
        forall|v: u64|
            v % 0x1_0000_0000_0000 >= 0x8000_0000_0000 ==> #[trigger] w.leaf(image.cr3 as int, v)
                == m.leaf(current, v),
{
    let size = userspace::page_count(code.len() as int) * 4096;
    assert(userspace::page_count(size) == userspace::page_count(code.len() as int));
    userspace::law_new_process_finds_its_image(m, current, code, size, w, image.cr3);
}

/// Frames that a block can take at most: four for each of its pages.
pub const BLOCK_FRAMES: usize = 1024;

/// Frames that a user stack can take at most.
pub const STACK_FRAMES: usize = 64;

/// A block that lies in the address space can be mapped if there are frames.
pub proof fn lemma_block_maps(m: Mem, cr3: int, base: int, data: Seq<u8>, size: int, rights: u64)
    requires
        space::table_flags(rights),
        m.space_wf(cr3),
        0 <= base,
        base % 4096 == 0,
        0 <= size,
        base + userspace::page_count(size) * 4096 <= 0x1_0000_0000_0000,
        userspace::page_count(size) > userspace::MAX_IMAGE_PAGES || m.frames.free() >= 4
            * userspace::page_count(size),
    ensures
        block_mapped(m, cr3, base, data, size, rights) matches Some((w, ok)) && (ok
            <==> userspace::page_count(size) <= userspace::MAX_IMAGE_PAGES) && (ok ==> w.space_wf(
            cr3,
        ) && w.frames.free() >= m.frames.free() - 4 * userspace::page_count(size)),
{
    let n = userspace::page_count(size);
    if n <= userspace::MAX_IMAGE_PAGES {
        userspace::law_enough_frames_map_every_page(m, cr3, base as u64, data, rights, 0, n);
        userspace::lemma_pages(m, cr3, base as u64, data, rights, 0, n);
    }
}

pub proof fn lemma_stack_maps(m: Mem, cr3: int)
    requires
        m.space_wf(cr3),
        m.frames.free() >= STACK_FRAMES,
    ensures
        stack_mapped(m, cr3) matches Some((w, ok)) && ok,
{
    let bottom = (userspace::USER_STACK_TOP - userspace::USER_STACK_SIZE) as u64;
    space::lemma_map_flags(true);
    userspace::law_enough_frames_map_every_page(
        m,
        cr3,
        bottom,
        Seq::empty(),
        paging::map_flags(true),
        0,
        16,
    );
}

proof fn lemma_sections_map(
    m: Mem,
    cr3: int,
    base: u64,
    data: Seq<u8>,
    sections: Seq<Section>,
    i: int,
    loaded: int,
    limit: int,
)
    requires
        m.space_wf(cr3),
        laid_out(base, sections, limit),
        limit <= 0x1_0000_0000_0000,
        0 <= i <= sections.len(),
        m.frames.free() >= BLOCK_FRAMES * (sections.len() - i) + STACK_FRAMES,
    ensures
        sections_mapped(m, cr3, base, data, sections, i, loaded) matches Some((w, r)) && (r is Ok
            ==> w.space_wf(cr3) && w.frames.free() >= STACK_FRAMES),
    decreases sections.len() - i,
{
    if i < sections.len() {
        let s = sections[i];
        if section_size(s) == 0 {
            lemma_sections_map(m, cr3, base, data, sections, i + 1, loaded, limit);
        } else if section_size(s) <= MAX_SECTION_SIZE {
            let at = base + s.virtual_address;
            let d = section_data(data, s);
            assert(section_start(base, s) == at);
            let r = section_rights(s);
            space::lemma_user_rights(section_writable(s), section_executable(s));
            lemma_block_maps(m, cr3, at, d, section_size(s) as int, r);
            let (w, ok) = block_mapped(m, cr3, at, d, section_size(s) as int, r)->0;
            if ok {
                lemma_sections_map(w, cr3, base, data, sections, i + 1, loaded + 1, limit);
            }
        }
    }
}

/// A bare binary of at most 256 pages is loaded if there are frames: one for the
/// address space, and four for each page of the binary and the stack.
pub proof fn law_enough_frames_load_a_binary(m: Mem, current: int, code: Seq<u8>)
    requires
        m.space_wf(current),
        userspace::page_count(code.len() as int) <= userspace::MAX_IMAGE_PAGES,
        m.frames.free() >= 1 + 4 * userspace::page_count(code.len() as int) + STACK_FRAMES,
    ensures
        binary_loaded(m, current, code) matches Some((w, Ok(_))),
{
    space::lemma_space_sane(m, current);
    crate::memory::phys::law_alloc_succeeds_while_frames_are_free(m.frames);
    crate::memory::phys::law_alloc_takes_a_free_frame(m.frames);
    space::lemma_fresh(m);
    userspace::law_new_space_holds_the_kernel_alone(m, current);
    let cr3 = m.fresh_addr();
    let m0 = userspace::space_made(m, current);
    let size = userspace::page_count(code.len() as int) * 4096;
    let rights = paging::map_flags(true);
    space::lemma_map_flags(true);
    lemma_block_maps(m0, cr3, userspace::USER_IMAGE_BASE as int, code, size, rights);
    let (m1, _) = block_mapped(
        m0,
        cr3,
        userspace::USER_IMAGE_BASE as int,
        code,
        size,
        rights,
    )->0;
    lemma_stack_maps(m1, cr3);
}

/// Loading an image can be carried out if there are frames: one for the address
/// space, four for each page of the stack, and 1024 for the headers and each
/// section. This holds of images whose sections start on pages below the user
/// stack and share no page.
pub proof fn law_enough_frames_load_an_image(m: Mem, current: int, data: Seq<u8>)
    requires
        m.space_wf(current),
        pe::pe_of(data).optional.image_base % 4096 == 0,
        pe::pe_of(data).optional.image_base + userspace::page_count(
            pe::pe_of(data).optional.size_of_headers as int,
        ) * 4096 <= 0x1_0000_0000_0000,
        laid_out(
            pe::pe_of(data).optional.image_base,
            pe::pe_of(data).sections,
            userspace::USER_STACK_TOP - userspace::USER_STACK_SIZE,
        ),
        m.frames.free() >= 1 + BLOCK_FRAMES * (1 + pe::pe_of(data).sections.len()) + STACK_FRAMES,
    ensures
        pe_loaded(m, current, data) is Some,
{
    reveal(pe_loaded);
    space::lemma_space_sane(m, current);
    crate::memory::phys::law_alloc_succeeds_while_frames_are_free(m.frames);
    crate::memory::phys::law_alloc_takes_a_free_frame(m.frames);
    space::lemma_fresh(m);
    userspace::law_new_space_holds_the_kernel_alone(m, current);
    let v = pe::pe_of(data);
    let base = v.optional.image_base;
    let cr3 = m.fresh_addr();
    let m0 = userspace::space_made(m, current);
    let headers = v.optional.size_of_headers as int;
    if headers <= data.len() {
        let rights = paging::map_flags(true);
        let d = data.subrange(0, headers);
        space::lemma_map_flags(true);
        lemma_block_maps(m0, cr3, base as int, d, headers, rights);
        let (m1, ok) = block_mapped(m0, cr3, base as int, d, headers, rights)->0;
        if ok {
            let bottom = userspace::USER_STACK_TOP - userspace::USER_STACK_SIZE;
            lemma_sections_map(m1, cr3, base, data, v.sections, 0, 0, bottom);
            let (m2, r) = sections_mapped(m1, cr3, base, data, v.sections, 0, 0)->0;
            if r is Ok {
                lemma_stack_maps(m2, cr3);
            }
        }
    }
}

} // verus!
