//! Programs: what a file says of itself, and where its bytes are once it is loaded.

use vstd::prelude::*;
use crate::loader;
use crate::loader::{LoadError, LoadedImage};
use crate::memory::paging;
use crate::memory::paging::space;
use crate::memory::paging::Mem;
use crate::memory::phys;
use crate::memory::phys::FrameAllocator;
use crate::search;
use crate::task;
use crate::userspace;
use crate::win32::pe;
use crate::win32::pe::{ImageSectionHeader, PeInfo};
use crate::win32::types::NTSTATUS;
use super::memory::{lemma_numbers, n16, n32, n64};
use super::spaces::{finds, lemma_entry_bits, lemma_finds, lemma_page_entry, page_entry, seen};

verus! {

/// Where the PE header of a file is.
pub open spec fn header(d: Seq<u8>) -> int {
    n32(d, 60)
}

/// How many sections a file has.
pub open spec fn section_total(d: Seq<u8>) -> int {
    n16(d, header(d) + 6)
}

/// Where the header of section `j` is.
pub open spec fn section_header(d: Seq<u8>, j: int) -> int {
    header(d) + 24 + n16(d, header(d) + 20) + 40 * j
}

/// A 64-bit PE file: "MZ" at its start, "PE" where byte 60 says, a 64-bit optional
/// header, and all headers within the file.
pub open spec fn is_image(d: Seq<u8>) -> bool {
    &&& d.len() >= 64
    &&& d[0] == 0x4D && d[1] == 0x5A
    &&& header(d) < 0x8000_0000
    &&& header(d) + 136 <= d.len()
    &&& n32(d, header(d)) == 0x4550
    &&& n16(d, header(d) + 24) == 0x20B
    &&& section_header(d, section_total(d)) <= d.len()
}

/// A section header of an image holds what stands in the file.
pub open spec fn is_section(s: pe::Section, d: Seq<u8>, h: int) -> bool {
    &&& s.name == d.subrange(h, h + 8)
    &&& s.virtual_size == n32(d, h + 8)
    &&& s.virtual_address == n32(d, h + 12)
    &&& s.size_of_raw_data == n32(d, h + 16)
    &&& s.pointer_to_raw_data == n32(d, h + 20)
    &&& s.characteristics == n32(d, h + 36)
}

/// The headers of an image hold what stands in the file.
pub open spec fn headers_told(v: pe::Pe, d: Seq<u8>) -> bool {
    let l = header(d);
    &&& v.lfanew == l
    &&& v.coff.machine == n16(d, l + 4)
    &&& v.coff.number_of_sections == n16(d, l + 6)
    &&& v.coff.size_of_optional_header == n16(d, l + 20)
    &&& v.coff.characteristics == n16(d, l + 22)
    &&& v.optional.address_of_entry_point == n32(d, l + 40)
    &&& v.optional.image_base == n64(d, l + 48)
    &&& v.optional.size_of_image == n32(d, l + 80)
    &&& v.optional.size_of_headers == n32(d, l + 84)
    &&& v.optional.subsystem == n16(d, l + 92)
    &&& v.optional.number_of_rva_and_sizes == n32(d, l + 132)
    &&& v.sections.len() == section_total(d)
    &&& forall|j: int|
        0 <= j < section_total(d) ==> is_section(
            #[trigger] v.sections[j],
            d,
            section_header(d, j),
        )
}

/// The loader's own terms agree with what stands in the file.
pub proof fn lemma_image(d: Seq<u8>)
    ensures
        pe::pe_error(d) is None <==> is_image(d),
        is_image(d) ==> headers_told(pe::pe_of(d), d),
{
    reveal(pe::pe_error);
    reveal(pe::pe_of);
    lemma_numbers(d, 0);
    lemma_numbers(d, 60);
    let l = header(d);
    lemma_numbers(d, l);
    lemma_numbers(d, l + 4);
    lemma_numbers(d, l + 6);
    lemma_numbers(d, l + 20);
    lemma_numbers(d, l + 22);
    lemma_numbers(d, l + 24);
    lemma_numbers(d, l + 40);
    lemma_numbers(d, l + 48);
    lemma_numbers(d, l + 80);
    lemma_numbers(d, l + 84);
    lemma_numbers(d, l + 92);
    lemma_numbers(d, l + 132);
    if is_image(d) {
        let v = pe::pe_of(d);
        assert(v.lfanew == l);
        assert forall|j: int| 0 <= j < section_total(d) implies is_section(
            #[trigger] v.sections[j],
            d,
            section_header(d, j),
        ) by {
            let h = section_header(d, j);
            lemma_numbers(d, h + 8);
            lemma_numbers(d, h + 12);
            lemma_numbers(d, h + 16);
            lemma_numbers(d, h + 20);
            lemma_numbers(d, h + 36);
        }
    }
}

/// Why a file is refused that is no 64-bit PE file: it does not start with "MZ", it has
/// another kind of optional header, or it is not in order otherwise.
pub open spec fn refusal(d: Seq<u8>) -> u32 {
    if d.len() >= 64 && !(d[0] == 0x4D && d[1] == 0x5A) {
        0xC000_012F
    } else if d.len() >= 64 && header(d) < 0x8000_0000 && header(d) + 136 <= d.len() && n32(
        d,
        header(d),
    ) == 0x4550 && n16(d, header(d) + 24) != 0x20B {
        0x4000_000E
    } else {
        0xC000_007B
    }
}

proof fn lemma_refusal(d: Seq<u8>)
    ensures
        pe::pe_error(d) matches Some(e) ==> e == refusal(d),
{
    reveal(pe::pe_error);
    lemma_numbers(d, 0);
    lemma_numbers(d, 60);
    lemma_numbers(d, header(d));
    lemma_numbers(d, header(d) + 24);
}

/// Reading a file succeeds exactly if it is a 64-bit PE file, and gives its headers as
/// they stand there. A file without "MZ" at its start, and one with another kind of
/// optional header, are told from the others.
pub proof fn law_headers_are_read_as_they_stand(data: &[u8], r: Result<PeInfo, NTSTATUS>)
    requires
        call_ensures(pe::parse_pe, (data,), r),
    ensures
        r is Ok <==> is_image(data@),
        r matches Ok(info) ==> headers_told(info@, data@),
        r matches Err(e) ==> e.0 == refusal(data@),
{
    let d = data@;
    lemma_image(d);
    reveal(pe::pe_error);
    lemma_numbers(d, 0);
    lemma_numbers(d, 60);
    lemma_numbers(d, header(d));
    lemma_numbers(d, header(d) + 24);
}

/// How many bytes of memory section `j` takes.
pub open spec fn extent(d: Seq<u8>, j: int) -> int {
    let h = section_header(d, j);
    if n32(d, h + 8) > 0 {
        n32(d, h + 8)
    } else {
        n32(d, h + 16)
    }
}

/// How many pages some bytes take.
pub open spec fn pages(n: int) -> int {
    (n + 4095) / 4096
}

/// Where section `j` starts in memory.
pub open spec fn section_base(d: Seq<u8>, j: int) -> int {
    n64(d, header(d) + 48) + n32(d, section_header(d, j) + 12)
}

/// Where the pages of section `j` end in memory.
pub open spec fn section_top(d: Seq<u8>, j: int) -> int {
    section_base(d, j) + pages(extent(d, j)) * 4096
}

/// The image starts on a page, its headers and its sections start on pages below the
/// user stack, and no two sections share a page. Empty sections do not count.
pub open spec fn well_laid(d: Seq<u8>) -> bool {
    &&& n64(d, header(d) + 48) % 4096 == 0
    &&& n64(d, header(d) + 48) + pages(n32(d, header(d) + 84)) * 4096 <= 0x7FFF_FFFE_0000
    &&& forall|j: int|
        0 <= j < section_total(d) && #[trigger] extent(d, j) > 0 ==> section_base(d, j) % 4096 == 0
            && section_top(d, j) <= 0x7FFF_FFFE_0000
    &&& forall|i: int, j: int|
        0 <= i < j < section_total(d) && #[trigger] extent(d, i) > 0 && #[trigger] extent(d, j) > 0
            ==> section_top(d, i) <= section_base(d, j) || section_top(d, j) <= section_base(d, i)
}

/// No section shares a page with the headers.
pub open spec fn headers_alone(d: Seq<u8>) -> bool {
    let base = n64(d, header(d) + 48);
    let end = base + pages(n32(d, header(d) + 84)) * 4096;
    forall|j: int|
        0 <= j < section_total(d) && #[trigger] extent(d, j) > 0 ==> section_base(d, j) >= end
            || section_top(d, j) <= base
}

pub proof fn lemma_extents(d: Seq<u8>)
    requires
        is_image(d),
    ensures
        ({
            let v = pe::pe_of(d);
            forall|j: int|
                0 <= j < section_total(d) ==> loader::section_size(#[trigger] v.sections[j])
                    == extent(d, j) && loader::section_start(
                    v.optional.image_base,
                    v.sections[j],
                ) == section_base(d, j) && loader::section_end(v.optional.image_base, v.sections[j])
                    == section_top(d, j)
        }),
{
    lemma_image(d);
    let v = pe::pe_of(d);
    assert forall|j: int| 0 <= j < section_total(d) implies loader::section_size(
        #[trigger] v.sections[j],
    ) == extent(d, j) && loader::section_start(v.optional.image_base, v.sections[j])
        == section_base(d, j) && loader::section_end(v.optional.image_base, v.sections[j])
        == section_top(d, j) by {
        assert(is_section(v.sections[j], d, section_header(d, j)));
    }
}

proof fn lemma_laid_out(d: Seq<u8>)
    requires
        is_image(d),
        well_laid(d),
    ensures
        loader::laid_out(
            pe::pe_of(d).optional.image_base,
            pe::pe_of(d).sections,
            userspace::USER_STACK_TOP - userspace::USER_STACK_SIZE,
        ),
        headers_alone(d) ==> loader::headers_apart(
            pe::pe_of(d),
            userspace::USER_STACK_TOP - userspace::USER_STACK_SIZE,
        ),
{
    lemma_image(d);
    lemma_extents(d);
    let v = pe::pe_of(d);
    let base = v.optional.image_base;
    let s = v.sections;
    assert forall|i: int|
        0 <= i < s.len() && loader::section_size(#[trigger] s[i]) > 0 implies loader::section_start(
        base,
        s[i],
    ) % 4096 == 0 && loader::section_end(base, s[i]) <= 0x7FFF_FFFE_0000 by {
        assert(extent(d, i) > 0);
    }
    assert forall|i: int, j: int|
        0 <= i < j < s.len() && loader::section_size(#[trigger] s[i]) > 0 && loader::section_size(
            #[trigger] s[j],
        ) > 0 implies loader::section_end(base, s[i]) <= loader::section_start(base, s[j])
        || loader::section_end(base, s[j]) <= loader::section_start(base, s[i]) by {
        assert(extent(d, i) > 0 && extent(d, j) > 0);
    }
    if headers_alone(d) {
        assert forall|i: int|
            0 <= i < s.len() && loader::section_size(
                #[trigger] s[i],
            ) > 0 implies loader::section_start(base, s[i]) >= base + userspace::page_count(
            v.optional.size_of_headers as int,
        ) * 4096 || loader::section_end(base, s[i]) <= base by {
            assert(extent(d, i) > 0);
        }
    }
}

/// The byte that a program finds `k` bytes into section `j`: that of the file, as far as
/// the section has bytes in the file, and zero behind them.
pub open spec fn section_byte(d: Seq<u8>, j: int, k: int) -> u8 {
    let h = section_header(d, j);
    if k < n32(d, h + 16) && n32(d, h + 20) + n32(d, h + 16) <= d.len() {
        d[n32(d, h + 20) + k]
    } else {
        0
    }
}

/// A program that is loaded finds every byte of each of its sections at the image base
/// plus the address of the section: byte `k` of the section is byte `k` behind the place
/// in the file that the section header names. Behind the bytes of the file there are
/// zeros up to the end of the last page.
pub proof fn law_loaded_sections_hold_the_bytes_of_the_file(
    frames: &mut FrameAllocator,
    bytes: &mut [u8],
    current: u64,
    data: &[u8],
    name: &str,
    image: LoadedImage,
    j: int,
    k: int,
)
    requires
        paging::mem(old(frames), old(bytes)@).space_wf(current as int),
        is_image(data@),
        well_laid(data@),
        call_ensures(
            loader::load_pe,
            (frames, bytes, current, data, name),
            Ok::<LoadedImage, LoadError>(image),
        ),
        0 <= j < section_total(data@),
        0 <= k < pages(extent(data@, j)) * 4096,
    ensures
        seen(final(bytes)@, image.cr3 as int, section_base(data@, j) + k) == Some(
            section_byte(data@, j, k),
        ),
{
    let d = data@;
    let m = paging::mem(old(frames), old(bytes)@);
    let w = paging::mem(final(frames), final(bytes)@);
    lemma_image(d);
    lemma_laid_out(d);
    lemma_extents(d);
    let v = pe::pe_of(d);
    assert(loader::pe_loaded(m, current as int, d) == Some(
        (w, Ok::<LoadedImage, LoadError>(image)),
    ));
    assert(image.image_base == v.optional.image_base) by {
        reveal(loader::pe_loaded);
    }
    let s = v.sections[j];
    assert(is_section(s, d, section_header(d, j)));
    loader::law_loaded_image_shows_its_sections(m, current as int, d, w, image, j);
    let part = loader::section_data(d, s);
    lemma_page_entry(w, image.cr3 as int, (section_base(d, j) + k) as u64);
    assert(userspace::byte_at(
        w,
        image.cr3 as int,
        (loader::section_start(image.image_base, s) + k) as u64,
    ) == Some(
        if k < part.len() {
            part[k]
        } else {
            0
        },
    ));
}

/// A program that is loaded may write to a section exactly if bit 31 of the section's
/// characteristics is set, and execute it exactly if bit 29 is.
pub proof fn law_loaded_sections_are_as_writable_as_they_say(
    frames: &mut FrameAllocator,
    bytes: &mut [u8],
    current: u64,
    data: &[u8],
    name: &str,
    image: LoadedImage,
    j: int,
    p: int,
)
    requires
        paging::mem(old(frames), old(bytes)@).space_wf(current as int),
        is_image(data@),
        well_laid(data@),
        call_ensures(
            loader::load_pe,
            (frames, bytes, current, data, name),
            Ok::<LoadedImage, LoadError>(image),
        ),
        0 <= j < section_total(data@),
        0 <= p < pages(extent(data@, j)),
    ensures
        page_entry(
            final(bytes)@,
            image.cr3 as int,
            section_base(data@, j) + p * 4096,
        ) matches Some(e) && {
            let c = n32(data@, section_header(data@, j) + 36);
            &&& e / 4 % 2 == 1
            &&& e / 2 % 2 == 1 <==> c / 0x8000_0000 == 1
            &&& e / 0x8000_0000_0000_0000 == 0 <==> c / 0x2000_0000 % 2 == 1
        },
{
    let d = data@;
    let m = paging::mem(old(frames), old(bytes)@);
    let w = paging::mem(final(frames), final(bytes)@);
    lemma_image(d);
    lemma_laid_out(d);
    lemma_extents(d);
    let v = pe::pe_of(d);
    assert(loader::pe_loaded(m, current as int, d) == Some(
        (w, Ok::<LoadedImage, LoadError>(image)),
    ));
    assert(image.image_base == v.optional.image_base) by {
        reveal(loader::pe_loaded);
    }
    assert(is_section(v.sections[j], d, section_header(d, j)));
    loader::law_loaded_sections_have_their_rights(m, current as int, d, w, image, j, p);
    let virt = (section_base(d, j) + p * 4096) as u64;
    lemma_page_entry(w, image.cr3 as int, virt);
    match w.leaf(image.cr3 as int, virt) {
        Some(e) => lemma_entry_bits(e.0),
        None => {},
    }
}

/// A program that is loaded finds the headers of its file at the image base, byte by
/// byte, a stack of 64 KiB of zeros below its top, and the kernel in the upper half as it
/// is mapped in the current address space. This holds where no section shares a page with
/// the headers.
pub proof fn law_loaded_program_finds_headers_stack_and_kernel(
    frames: &mut FrameAllocator,
    bytes: &mut [u8],
    current: u64,
    data: &[u8],
    name: &str,
    image: LoadedImage,
)
    requires
        paging::mem(old(frames), old(bytes)@).space_wf(current as int),
        is_image(data@),
        well_laid(data@),
        headers_alone(data@),
        call_ensures(
            loader::load_pe,
            (frames, bytes, current, data, name),
            Ok::<LoadedImage, LoadError>(image),
        ),
    ensures
        forall|k: int|
            0 <= k < n32(data@, header(data@) + 84) ==> #[trigger] seen(
                final(bytes)@,
                image.cr3 as int,
                n64(data@, header(data@) + 48) + k,
            ) == Some(data@[k]),
        finds(
            final(bytes)@,
            image.cr3 as int,
            0x7FFF_FFFE_0000,
            Seq::empty(),
            0x7FFF_FFFF_0000,
        ),
        forall|v: u64|
            v / 0x8000_0000_0000 % 2 == 1 ==> #[trigger] page_entry(
                final(bytes)@,
                image.cr3 as int,
                v as int,
            ) == page_entry(old(bytes)@, current as int, v as int),
{
    let d = data@;
    let m = paging::mem(old(frames), old(bytes)@);
    let w = paging::mem(final(frames), final(bytes)@);
    lemma_image(d);
    lemma_laid_out(d);
    lemma_extents(d);
    let v = pe::pe_of(d);
    assert(loader::pe_loaded(m, current as int, d) == Some(
        (w, Ok::<LoadedImage, LoadError>(image)),
    ));
    assert(image.image_base == v.optional.image_base) by {
        reveal(loader::pe_loaded);
    }
    loader::law_loaded_image_has_headers_and_stack(m, current as int, d, w, image);
    let base = image.image_base;
    let root = image.cr3 as int;
    assert forall|k: int| 0 <= k < n32(d, header(d) + 84) implies #[trigger] seen(
        w.bytes,
        root,
        n64(d, header(d) + 48) + k,
    ) == Some(d[k]) by {
        lemma_page_entry(w, root, (base + k) as u64);
        assert(userspace::byte_at(w, root, (base + k) as u64) is Some);
    }
    lemma_stack(w, root);
    assert forall|v: u64| v / 0x8000_0000_0000 % 2 == 1 implies #[trigger] page_entry(
        w.bytes,
        root,
        v as int,
    ) == page_entry(m.bytes, current as int, v as int) by {
        lemma_page_entry(w, root, v);
        lemma_page_entry(m, current as int, v);
        assert(v % 0x1_0000_0000_0000 >= 0x8000_0000_0000);
        assert(w.leaf(root, v) == m.leaf(current as int, v));
    }
}

proof fn lemma_stack(w: Mem, root: int)
    requires
        forall|k: int|
            0 <= k < userspace::USER_STACK_SIZE ==> #[trigger] userspace::byte_at(
                w,
                root,
                (userspace::USER_STACK_TOP - userspace::USER_STACK_SIZE + k) as u64,
            ) == Some(0u8),
    ensures
        finds(w.bytes, root, 0x7FFF_FFFE_0000, Seq::empty(), 0x7FFF_FFFF_0000),
{
    assert forall|k: int| 0 <= k < 0x1_0000 implies #[trigger] userspace::byte_at(
        w,
        root,
        (0x7FFF_FFFE_0000u64 + k) as u64,
    ) == Some(0u8) by {
        assert(userspace::byte_at(
            w,
            root,
            (userspace::USER_STACK_TOP - userspace::USER_STACK_SIZE + k) as u64,
        ) == Some(0u8));
    }
    lemma_finds(w, root, 0x7FFF_FFFE_0000, Seq::empty(), 0x7FFF_FFFF_0000);
}

/// A file is refused by its headers before anything is loaded, and nothing changes then:
/// one that is no 64-bit PE file, one for another processor than AMD64, a library, one
/// of more than 16 MiB. A program that is loaded starts at the image base plus the entry
/// point, and is known by what its headers say.
pub proof fn law_loading_follows_the_headers(
    frames: &mut FrameAllocator,
    bytes: &mut [u8],
    current: u64,
    data: &[u8],
    name: &str,
    r: Result<LoadedImage, LoadError>,
)
    requires
        call_ensures(loader::load_pe, (frames, bytes, current, data, name), r),
    ensures
        !is_image(data@) ==> (r matches Err(LoadError::InvalidPe(e)) && e.0 == refusal(data@)),
        is_image(data@) && n16(data@, header(data@) + 4) != 0x8664 ==> r == Err::<
            LoadedImage,
            LoadError,
        >(LoadError::WrongArchitecture),
        is_image(data@) && n16(data@, header(data@) + 4) == 0x8664 && n16(data@, header(data@) + 22)
            / 0x2000 % 2 == 1 ==> r == Err::<LoadedImage, LoadError>(LoadError::NotExecutable),
        is_image(data@) && n16(data@, header(data@) + 4) == 0x8664 && n16(data@, header(data@) + 22)
            / 0x2000 % 2 == 0 && n32(data@, header(data@) + 80) > 0x100_0000 ==> r == Err::<
            LoadedImage,
            LoadError,
        >(LoadError::ImageTooLarge),
        r matches Err(e) && (e is InvalidPe && !is_image(data@) || e is WrongArchitecture || e
            is NotExecutable || e is ImageTooLarge) ==> final(bytes)@ == old(bytes)@ && final(frames)@ == old(frames)@,
        r matches Ok(image) ==> {
            let l = header(data@);
            &&& image.image_base == n64(data@, l + 48)
            &&& image.entry_point == n64(data@, l + 48) + n32(data@, l + 40)
            &&& image.image_size == n32(data@, l + 80)
            &&& image.subsystem == n16(data@, l + 92)
            &&& image.machine == 0x8664
            &&& image.user_stack_top == 0x7FFF_FFFF_0000
        },
{
    let d = data@;
    let m = paging::mem(old(frames), old(bytes)@);
    let w = paging::mem(final(frames), final(bytes)@);
    lemma_image(d);
    lemma_refusal(d);
    assert(Some((w, r)) == loader::pe_loaded(m, current as int, d));
    reveal(loader::pe_loaded);
    assert(w.bytes == final(bytes)@ && w.frames == final(frames)@);
    if is_image(d) && loader::refused(pe::pe_of(d)) is None && m.frames.lowest_free() is Some {
        lemma_mapping_errors(
            userspace::space_made(m, current as int),
            m.fresh_addr(),
            d,
            pe::pe_of(d),
        );
    }
}

proof fn lemma_mapping_errors(m: Mem, cr3: int, d: Seq<u8>, v: pe::Pe)
    ensures
        loader::image_mapped(m, cr3, d, v) matches Some((_, Err(e))) ==> !(e is WrongArchitecture)
            && !(e is NotExecutable) && !(e is ImageTooLarge),
{
    let headers = v.optional.size_of_headers as int;
    if headers <= d.len() {
        match loader::block_mapped(
            m,
            cr3,
            v.optional.image_base as int,
            d.subrange(0, headers),
            headers,
            paging::map_flags(true),
        ) {
            Some((m1, true)) => lemma_section_errors(
                m1,
                cr3,
                v.optional.image_base,
                d,
                v.sections,
                0,
                0,
            ),
            _ => {},
        }
    }
}

proof fn lemma_section_errors(
    m: Mem,
    cr3: int,
    base: u64,
    d: Seq<u8>,
    s: Seq<pe::Section>,
    i: int,
    n: int,
)
    ensures
        loader::sections_mapped(m, cr3, base, d, s, i, n) matches Some((_, Err(e))) ==> !(e
            is WrongArchitecture) && !(e is NotExecutable) && !(e is ImageTooLarge),
    decreases s.len() - i,
{
    if i < s.len() {
        if loader::section_size(s[i]) == 0 {
            lemma_section_errors(m, cr3, base, d, s, i + 1, n);
        } else if loader::section_size(s[i]) <= loader::MAX_SECTION_SIZE {
            match loader::block_mapped(
                m,
                cr3,
                base + s[i].virtual_address,
                loader::section_data(d, s[i]),
                loader::section_size(s[i]) as int,
                loader::section_rights(s[i]),
            ) {
                Some((w, true)) => lemma_section_errors(w, cr3, base, d, s, i + 1, n + 1),
                _ => {},
            }
        }
    }
}

/// How many of the sections from `i` on are not empty.
pub open spec fn full_sections(d: Seq<u8>, i: int) -> int
    decreases section_total(d) - i,
{
    if i >= section_total(d) {
        0
    } else if extent(d, i) > 0 {
        1 + full_sections(d, i + 1)
    } else {
        full_sections(d, i + 1)
    }
}

/// The image is one that the loader takes: a program for AMD64 of at most 16 MiB, with
/// its headers in the file, and its headers and sections of at most 256 pages each.
pub open spec fn is_loadable(d: Seq<u8>) -> bool {
    let l = header(d);
    &&& is_image(d)
    &&& well_laid(d)
    &&& n16(d, l + 4) == 0x8664
    &&& n16(d, l + 22) / 0x2000 % 2 == 0
    &&& n32(d, l + 80) <= 0x100_0000
    &&& n32(d, l + 84) <= d.len()
    &&& pages(n32(d, l + 84)) <= 256
    &&& forall|j: int| 0 <= j < section_total(d) ==> pages(#[trigger] extent(d, j)) <= 256
}

/// The headers of the image are those of one that the loader takes, whatever its sections.
pub open spec fn has_good_headers(d: Seq<u8>) -> bool {
    let l = header(d);
    &&& is_image(d)
    &&& well_laid(d)
    &&& n16(d, l + 4) == 0x8664
    &&& n16(d, l + 22) / 0x2000 % 2 == 0
    &&& n32(d, l + 80) <= 0x100_0000
}

/// Headers that are longer than the file are refused as those of no image, and such of more
/// than 256 pages for want of memory.
pub proof fn law_headers_must_be_in_the_file(
    frames: &mut FrameAllocator,
    bytes: &mut [u8],
    current: u64,
    data: &[u8],
    name: &str,
    r: Result<LoadedImage, LoadError>,
)
    requires
        paging::mem(old(frames), old(bytes)@).space_wf(current as int),
        has_good_headers(data@),
        old(frames)@.free() >= 1,
        call_ensures(loader::load_pe, (frames, bytes, current, data, name), r),
    ensures
        n32(data@, header(data@) + 84) > data@.len() ==> (r matches Err(LoadError::InvalidPe(e))
            && e.0 == 0xC000_007B),
        n32(data@, header(data@) + 84) <= data@.len() && pages(n32(data@, header(data@) + 84)) > 256
            ==> (r matches Err(LoadError::OutOfMemory)),
{
    let d = data@;
    let m = paging::mem(old(frames), old(bytes)@);
    let w = paging::mem(final(frames), final(bytes)@);
    lemma_image(d);
    assert(Some((w, r)) == loader::pe_loaded(m, current as int, d));
    reveal(loader::pe_loaded);
    space::lemma_space_sane(m, current as int);
    phys::law_alloc_succeeds_while_frames_are_free(m.frames);
}

/// The first section of more than 256 pages refuses the image: as too large if it has more
/// than 4 MiB, and for want of memory otherwise. This holds if there are frames for what is
/// in front of it.
pub proof fn law_large_section_refuses_the_image(
    frames: &mut FrameAllocator,
    bytes: &mut [u8],
    current: u64,
    data: &[u8],
    name: &str,
    j: int,
    r: Result<LoadedImage, LoadError>,
)
    requires
        paging::mem(old(frames), old(bytes)@).space_wf(current as int),
        has_good_headers(data@),
        n32(data@, header(data@) + 84) <= data@.len(),
        pages(n32(data@, header(data@) + 84)) <= 256,
        0 <= j < section_total(data@),
        pages(extent(data@, j)) > 256,
        forall|i: int| 0 <= i < j ==> pages(#[trigger] extent(data@, i)) <= 256,
        old(frames)@.free() >= 65 + 1024 * (1 + section_total(data@)),
        call_ensures(loader::load_pe, (frames, bytes, current, data, name), r),
    ensures
        extent(data@, j) > 0x40_0000 ==> (r matches Err(LoadError::SectionTooLarge)),
        extent(data@, j) <= 0x40_0000 ==> (r matches Err(LoadError::OutOfMemory)),
{
    let d = data@;
    let m = paging::mem(old(frames), old(bytes)@);
    let w = paging::mem(final(frames), final(bytes)@);
    lemma_image(d);
    lemma_laid_out(d);
    lemma_extents(d);
    let v = pe::pe_of(d);
    assert(Some((w, r)) == loader::pe_loaded(m, current as int, d));
    reveal(loader::pe_loaded);
    space::lemma_space_sane(m, current as int);
    phys::law_alloc_succeeds_while_frames_are_free(m.frames);
    phys::law_alloc_takes_a_free_frame(m.frames);
    space::lemma_fresh(m);
    userspace::law_new_space_holds_the_kernel_alone(m, current as int);
    let base = v.optional.image_base;
    let cr3 = m.fresh_addr();
    let m0 = userspace::space_made(m, current as int);
    let headers = v.optional.size_of_headers as int;
    let part = d.subrange(0, headers);
    let f = paging::map_flags(true);
    space::lemma_map_flags(true);
    loader::lemma_block_maps(m0, cr3, base as int, part, headers, f);
    let (m1, _) = loader::block_mapped(m0, cr3, base as int, part, headers, f)->0;
    lemma_sections_up_to(m1, cr3, base, d, v.sections, 0, 0, j);
}

proof fn lemma_sections_up_to(
    m: Mem,
    cr3: int,
    base: u64,
    d: Seq<u8>,
    s: Seq<pe::Section>,
    i: int,
    n: int,
    j: int,
)
    requires
        m.space_wf(cr3),
        is_image(d),
        s == pe::pe_of(d).sections,
        base == pe::pe_of(d).optional.image_base,
        loader::laid_out(base, s, 0x7FFF_FFFE_0000),
        0 <= i <= j < s.len(),
        pages(extent(d, j)) > 256,
        forall|k: int| 0 <= k < j ==> pages(#[trigger] extent(d, k)) <= 256,
        m.frames.free() >= 1024 * (s.len() - i) + 64,
    ensures
        loader::sections_mapped(m, cr3, base, d, s, i, n) matches Some((_, Err(e))) && (if extent(
            d,
            j,
        ) > 0x40_0000 {
            e is SectionTooLarge
        } else {
            e is OutOfMemory
        }),
    decreases j - i,
{
    lemma_image(d);
    lemma_extents(d);
    let x = s[i];
    assert(loader::section_size(x) == extent(d, i));
    let at = base + x.virtual_address;
    let part = loader::section_data(d, x);
    let f = loader::section_rights(x);
    assert(loader::section_start(base, x) == at);
    space::lemma_user_rights(loader::section_writable(x), loader::section_executable(x));
    if i < j {
        assert(pages(extent(d, i)) <= 256);
        if loader::section_size(x) == 0 {
            lemma_sections_up_to(m, cr3, base, d, s, i + 1, n, j);
        } else {
            loader::lemma_block_maps(m, cr3, at, part, extent(d, i), f);
            let (w, _) = loader::block_mapped(m, cr3, at, part, extent(d, i), f)->0;
            lemma_sections_up_to(w, cr3, base, d, s, i + 1, n + 1, j);
        }
    }
}

/// A program that is loaded has all of its sections loaded that are not empty.
pub proof fn law_every_full_section_is_loaded(
    frames: &mut FrameAllocator,
    bytes: &mut [u8],
    current: u64,
    data: &[u8],
    name: &str,
    image: LoadedImage,
)
    requires
        is_image(data@),
        call_ensures(
            loader::load_pe,
            (frames, bytes, current, data, name),
            Ok::<LoadedImage, LoadError>(image),
        ),
    ensures
        image.sections_loaded == full_sections(data@, 0),
{
    let d = data@;
    let m = paging::mem(old(frames), old(bytes)@);
    let w = paging::mem(final(frames), final(bytes)@);
    lemma_image(d);
    let v = pe::pe_of(d);
    assert(loader::pe_loaded(m, current as int, d) == Some(
        (w, Ok::<LoadedImage, LoadError>(image)),
    ));
    reveal(loader::pe_loaded);
    let cr3 = m.fresh_addr();
    let m0 = userspace::space_made(m, current as int);
    let headers = v.optional.size_of_headers as int;
    let (m1, _) = loader::block_mapped(
        m0,
        cr3,
        v.optional.image_base as int,
        d.subrange(0, headers),
        headers,
        paging::map_flags(true),
    )->0;
    lemma_counted(m1, cr3, v.optional.image_base, d, v.sections, 0, 0);
}

proof fn lemma_counted(
    m: Mem,
    cr3: int,
    base: u64,
    d: Seq<u8>,
    s: Seq<pe::Section>,
    i: int,
    n: int,
)
    requires
        is_image(d),
        s == pe::pe_of(d).sections,
        0 <= i <= s.len(),
        0 <= n <= i,
    ensures
        loader::sections_mapped(m, cr3, base, d, s, i, n) matches Some((_, Ok(k))) ==> k == n
            + full_sections(d, i),
    decreases s.len() - i,
{
    lemma_image(d);
    lemma_extents(d);
    if i < s.len() {
        assert(loader::section_size(s[i]) == extent(d, i));
        if loader::section_size(s[i]) == 0 {
            lemma_counted(m, cr3, base, d, s, i + 1, n);
        } else if loader::section_size(s[i]) <= loader::MAX_SECTION_SIZE {
            match loader::block_mapped(
                m,
                cr3,
                base + s[i].virtual_address,
                loader::section_data(d, s[i]),
                loader::section_size(s[i]) as int,
                loader::section_rights(s[i]),
            ) {
                Some((w, true)) => lemma_counted(w, cr3, base, d, s, i + 1, n + 1),
                _ => {},
            }
        }
    }
}

/// Without a free frame no program is loaded, and nothing changes.
pub proof fn law_without_frames_nothing_is_loaded(
    frames: &mut FrameAllocator,
    bytes: &mut [u8],
    frames2: &mut FrameAllocator,
    bytes2: &mut [u8],
    current: u64,
    data: &[u8],
    name: &str,
    r: Result<LoadedImage, LoadError>,
    r2: Result<LoadedImage, LoadError>,
)
    requires
        paging::mem(old(frames), old(bytes)@).sane(),
        paging::mem(old(frames2), old(bytes2)@).sane(),
        old(frames)@.free() == 0,
        old(frames2)@.free() == 0,
        has_good_headers(data@),
        call_ensures(loader::load_pe, (frames, bytes, current, data, name), r),
        call_ensures(loader::load_raw_binary, (frames2, bytes2, current, data, name), r2),
    ensures
        r matches Err(LoadError::OutOfMemory),
        r2 matches Err(LoadError::OutOfMemory),
        final(bytes)@ == old(bytes)@,
        final(bytes2)@ == old(bytes2)@,
        final(frames)@ == old(frames)@,
        final(frames2)@ == old(frames2)@,
{
    let d = data@;
    let m = paging::mem(old(frames), old(bytes)@);
    let w = paging::mem(final(frames), final(bytes)@);
    let m2 = paging::mem(old(frames2), old(bytes2)@);
    let w2 = paging::mem(final(frames2), final(bytes2)@);
    lemma_image(d);
    phys::law_alloc_succeeds_while_frames_are_free(m.frames);
    phys::law_alloc_succeeds_while_frames_are_free(m2.frames);
    assert(Some((w, r)) == loader::pe_loaded(m, current as int, d));
    assert(loader::binary_loaded(m2, current as int, d) == Some((w2, r2)));
    reveal(loader::pe_loaded);
}

/// An image that the loader takes is loaded, with all of its sections that are not
/// empty, if there are frames: one for the address space, 64 for the stack, and 1024 for
/// the headers and for each section.
pub proof fn law_loadable_image_is_loaded(
    frames: &mut FrameAllocator,
    bytes: &mut [u8],
    current: u64,
    data: &[u8],
    name: &str,
    r: Result<LoadedImage, LoadError>,
)
    requires
        paging::mem(old(frames), old(bytes)@).space_wf(current as int),
        is_loadable(data@),
        old(frames)@.free() >= 65 + 1024 * (1 + section_total(data@)),
        call_ensures(loader::load_pe, (frames, bytes, current, data, name), r),
    ensures
        r matches Ok(image) && image.sections_loaded == full_sections(data@, 0),
{
    let d = data@;
    let m = paging::mem(old(frames), old(bytes)@);
    let w = paging::mem(final(frames), final(bytes)@);
    lemma_image(d);
    lemma_laid_out(d);
    lemma_extents(d);
    let v = pe::pe_of(d);
    assert(Some((w, r)) == loader::pe_loaded(m, current as int, d));
    reveal(loader::pe_loaded);
    space::lemma_space_sane(m, current as int);
    phys::law_alloc_succeeds_while_frames_are_free(m.frames);
    phys::law_alloc_takes_a_free_frame(m.frames);
    space::lemma_fresh(m);
    userspace::law_new_space_holds_the_kernel_alone(m, current as int);
    let base = v.optional.image_base;
    let cr3 = m.fresh_addr();
    let m0 = userspace::space_made(m, current as int);
    let headers = v.optional.size_of_headers as int;
    let part = d.subrange(0, headers);
    let f = paging::map_flags(true);
    space::lemma_map_flags(true);
    loader::lemma_block_maps(m0, cr3, base as int, part, headers, f);
    let (m1, _) = loader::block_mapped(m0, cr3, base as int, part, headers, f)->0;
    lemma_all_sections(m1, cr3, base, d, v.sections, 0, 0);
    let (m2, _) = loader::sections_mapped(m1, cr3, base, d, v.sections, 0, 0)->0;
    loader::lemma_stack_maps(m2, cr3);
    lemma_full_bound(d, 0);
}

proof fn lemma_full_bound(d: Seq<u8>, i: int)
    requires
        0 <= i,
    ensures
        0 <= full_sections(d, i),
        i <= section_total(d) ==> full_sections(d, i) <= section_total(d) - i,
    decreases section_total(d) - i,
{
    if i < section_total(d) {
        lemma_full_bound(d, i + 1);
    }
}

proof fn lemma_all_sections(
    m: Mem,
    cr3: int,
    base: u64,
    d: Seq<u8>,
    s: Seq<pe::Section>,
    i: int,
    n: int,
)
    requires
        m.space_wf(cr3),
        is_image(d),
        s == pe::pe_of(d).sections,
        base == pe::pe_of(d).optional.image_base,
        loader::laid_out(base, s, 0x7FFF_FFFE_0000),
        forall|j: int| 0 <= j < section_total(d) ==> pages(#[trigger] extent(d, j)) <= 256,
        0 <= i <= s.len(),
        0 <= n <= i,
        m.frames.free() >= 1024 * (s.len() - i) + 64,
    ensures
        loader::sections_mapped(m, cr3, base, d, s, i, n) matches Some((w, Ok(k))) && k == n
            + full_sections(d, i) && w.space_wf(cr3) && w.frames.free() >= 64,
    decreases s.len() - i,
{
    lemma_image(d);
    lemma_extents(d);
    lemma_full_bound(d, i);
    if i < s.len() {
        let x = s[i];
        assert(loader::section_size(x) == extent(d, i));
        if loader::section_size(x) == 0 {
            lemma_all_sections(m, cr3, base, d, s, i + 1, n);
        } else {
            let at = base + x.virtual_address;
            let part = loader::section_data(d, x);
            let f = loader::section_rights(x);
            assert(loader::section_start(base, x) == at);
            assert(pages(extent(d, i)) <= 256);
            space::lemma_user_rights(loader::section_writable(x), loader::section_executable(x));
            loader::lemma_block_maps(m, cr3, at, part, extent(d, i), f);
            let (w, _) = loader::block_mapped(m, cr3, at, part, extent(d, i), f)->0;
            lemma_all_sections(w, cr3, base, d, s, i + 1, n + 1);
        }
    }
}

/// A bare binary that is loaded is found at 0x40_0000, byte by byte, with zeros behind it
/// up to the end of the last page, and starts there; it has a stack of 64 KiB of zeros and
/// the kernel in its upper half.
pub proof fn law_loaded_binary_is_found_at_its_base(
    frames: &mut FrameAllocator,
    bytes: &mut [u8],
    current: u64,
    code: &[u8],
    name: &str,
    image: LoadedImage,
)
    requires
        paging::mem(old(frames), old(bytes)@).space_wf(current as int),
        call_ensures(
            loader::load_raw_binary,
            (frames, bytes, current, code, name),
            Ok::<LoadedImage, LoadError>(image),
        ),
    ensures
        image.entry_point == 0x40_0000,
        image.image_base == 0x40_0000,
        image.user_stack_top == 0x7FFF_FFFF_0000,
        finds(
            final(bytes)@,
            image.cr3 as int,
            0x40_0000,
            code@,
            0x40_0000 + pages(code@.len() as int) * 4096,
        ),
        finds(
            final(bytes)@,
            image.cr3 as int,
            0x7FFF_FFFE_0000,
            Seq::empty(),
            0x7FFF_FFFF_0000,
        ),
        forall|v: u64|
            v / 0x8000_0000_0000 % 2 == 1 ==> #[trigger] page_entry(
                final(bytes)@,
                image.cr3 as int,
                v as int,
            ) == page_entry(old(bytes)@, current as int, v as int),
{
    let m = paging::mem(old(frames), old(bytes)@);
    let w = paging::mem(final(frames), final(bytes)@);
    let root = image.cr3 as int;
    assert(loader::binary_loaded(m, current as int, code@) == Some(
        (w, Ok::<LoadedImage, LoadError>(image)),
    ));
    loader::law_loaded_binary_is_found(m, current as int, code@, w, image);
    assert(userspace::page_count(code@.len() as int) <= 256);
    lemma_finds(w, root, 0x40_0000, code@, 0x40_0000 + pages(code@.len() as int) * 4096);
    lemma_stack(w, root);
    assert forall|v: u64| v / 0x8000_0000_0000 % 2 == 1 implies #[trigger] page_entry(
        w.bytes,
        root,
        v as int,
    ) == page_entry(m.bytes, current as int, v as int) by {
        lemma_page_entry(w, root, v);
        lemma_page_entry(m, current as int, v);
        assert(v % 0x1_0000_0000_0000 >= 0x8000_0000_0000);
        assert(w.leaf(root, v) == m.leaf(current as int, v));
    }
}

/// A bare binary of at most 256 pages is loaded if there are frames: one for the address
/// space, 64 for the stack and four for each page.
pub proof fn law_small_binary_is_loaded(
    frames: &mut FrameAllocator,
    bytes: &mut [u8],
    current: u64,
    code: &[u8],
    name: &str,
    r: Result<LoadedImage, LoadError>,
)
    requires
        paging::mem(old(frames), old(bytes)@).space_wf(current as int),
        pages(code@.len() as int) <= 256,
        old(frames)@.free() >= 65 + 4 * pages(code@.len() as int),
        call_ensures(loader::load_raw_binary, (frames, bytes, current, code, name), r),
    ensures
        r is Ok,
{
    let m = paging::mem(old(frames), old(bytes)@);
    loader::law_enough_frames_load_a_binary(m, current as int, code@);
}

/// `r` is where in the file an address of the image is: behind the place of the first
/// section that holds the address, as far as the address is behind the start of the
/// section.
pub open spec fn file_place(s: Seq<pe::Section>, rva: int, r: Option<int>) -> bool {
    match r {
        Some(o) => exists|i: int|
            {
                &&& 0 <= i < s.len()
                &&& #[trigger] reaches_over(s[i], rva)
                &&& forall|j: int| 0 <= j < i ==> !#[trigger] reaches_over(s[j], rva)
                &&& o == s[i].pointer_to_raw_data + (rva - s[i].virtual_address)
            },
        None => forall|j: int| 0 <= j < s.len() ==> !#[trigger] reaches_over(s[j], rva),
    }
}

/// A section reaches over an address of the image.
pub open spec fn reaches_over(s: pe::Section, rva: int) -> bool {
    s.virtual_address <= rva < s.virtual_address + (if s.virtual_size > 0 {
        s.virtual_size
    } else {
        s.size_of_raw_data
    })
}

proof fn lemma_file_place(s: Seq<pe::Section>, rva: int)
    requires
        s.len() <= usize::MAX,
    ensures
        file_place(s, rva, loader::offset_of(s, rva)),
{
    let p = |i: int| loader::section_holds(s, i, rva);
    search::lemma_first(s.len(), p);
    match search::first(s.len(), p) {
        Some(i) => {
            assert(p(i as int));
            assert(reaches_over(s[i as int], rva));
            assert forall|j: int| 0 <= j < i implies !#[trigger] reaches_over(s[j], rva) by {
                assert(!p(j));
            }
        },
        None => {
            assert forall|j: int| 0 <= j < s.len() implies !#[trigger] reaches_over(s[j], rva) by {
                assert(!p(j));
            }
        },
    }
}

/// An address of the image is found in the file through the section that holds it. See
/// `file_place`.
pub proof fn law_address_is_found_through_its_section(rva: u64, info: &PeInfo, r: Option<u64>)
    requires
        call_ensures(loader::rva_to_offset, (rva, info), r),
    ensures
        file_place(
            info@.sections,
            rva as int,
            match r {
                Some(o) => Some(o as int),
                None => None,
            },
        ),
{
    assert(info@.sections.len() == info.sections.len());
    lemma_file_place(info@.sections, rva as int);
}

/// `s` is the text at a place of a file: no zero is in it, and it ends with a zero, with
/// the file or after `limit` bytes.
pub open spec fn text_at(d: Seq<u8>, at: int, limit: int, s: Seq<u8>) -> bool {
    &&& s.len() <= limit
    &&& at + s.len() <= d.len()
    &&& forall|k: int| 0 <= k < s.len() ==> #[trigger] s[k] == d[at + k] && s[k] != 0
    &&& s.len() == limit || at + s.len() == d.len() || d[at + s.len()] == 0
}

proof fn lemma_text_len(buf: Seq<u8>)
    ensures
        text_at(buf, 0, buf.len() as int, task::name_of(buf)),
    decreases buf.len(),
{
    if buf.len() > 0 && buf[0] != 0 {
        let rest = buf.subrange(1, buf.len() as int);
        lemma_text_len(rest);
        let s = task::name_of(buf);
        let t = task::name_of(rest);
        assert(s == seq![buf[0]] + t);
        assert forall|k: int| 0 <= k < s.len() implies #[trigger] s[k] == buf[0 + k] && s[k] != 0 by {
            if k > 0 {
                assert(s[k] == t[k - 1]);
                assert(t[k - 1] == rest[0 + (k - 1)]);
            }
        }
        if s.len() < buf.len() {
            assert(rest[t.len() as int] == buf[s.len() as int]);
        }
    }
}

/// The name of a section ends with a zero or after eight bytes.
pub proof fn law_section_name_ends_with_a_zero(section: &ImageSectionHeader, r: Vec<u8>)
    requires
        call_ensures(loader::section_name, (section,), r),
    ensures
        text_at(section.name@, 0, 8, r@),
{
    lemma_text_len(section.name@);
}

/// The import descriptor at `rva` is in a section, in the file, and not the closing one.
pub open spec fn imports_at(d: Seq<u8>, s: Seq<pe::Section>, rva: int, o: int) -> bool {
    &&& file_place(s, rva, Some(o))
    &&& o + 20 <= d.len()
    &&& n32(d, o + 12) != 0 || n32(d, o) != 0
}

proof fn lemma_place_is_one(s: Seq<pe::Section>, rva: int, a: Option<int>, b: Option<int>)
    requires
        file_place(s, rva, a),
        file_place(s, rva, b),
    ensures
        a == b,
{
    if a is Some && b is Some {
        let i = choose|i: int|
            {
                &&& 0 <= i < s.len()
                &&& #[trigger] reaches_over(s[i], rva)
                &&& forall|j: int| 0 <= j < i ==> !#[trigger] reaches_over(s[j], rva)
                &&& a->0 == s[i].pointer_to_raw_data + (rva - s[i].virtual_address)
            };
        let k = choose|i: int|
            {
                &&& 0 <= i < s.len()
                &&& #[trigger] reaches_over(s[i], rva)
                &&& forall|j: int| 0 <= j < i ==> !#[trigger] reaches_over(s[j], rva)
                &&& b->0 == s[i].pointer_to_raw_data + (rva - s[i].virtual_address)
            };
        if i < k {
            assert(!reaches_over(s[i], rva));
        }
        if k < i {
            assert(!reaches_over(s[k], rva));
        }
    }
}

/// How many of the first `n` places are there.
pub open spec fn there_before(names: Seq<Option<int>>, n: int) -> int
    decreases n,
{
    if n <= 0 {
        0
    } else {
        there_before(names, n - 1) + if names[n - 1] is Some {
            1int
        } else {
            0
        }
    }
}

proof fn lemma_there(names: Seq<Option<int>>, i: int, n: int)
    requires
        0 <= i <= n,
    ensures
        there_before(names, i) <= there_before(names, n),
    decreases n,
{
    if i < n {
        lemma_there(names, i, n - 1);
    }
}

/// The import descriptors of a file from `rva` on, 20 bytes each: `at` says where each is
/// in the file, and `names` where its name is, if a section holds it. Behind the last one
/// there is none.
pub open spec fn import_list(
    d: Seq<u8>,
    s: Seq<pe::Section>,
    rva: int,
    at: Seq<int>,
    names: Seq<Option<int>>,
) -> bool {
    &&& at.len() == names.len()
    &&& rva + 20 * at.len() < 0x2_0000_0000
    &&& forall|k: int| 0 <= k < at.len() ==> imports_at(d, s, rva + 20 * k, #[trigger] at[k])
    &&& forall|k: int|
        0 <= k < names.len() ==> file_place(s, n32(d, at[k] + 12), #[trigger] names[k]) && (
        names[k] matches Some(p) ==> p <= d.len())
    &&& forall|o: int| !#[trigger] imports_at(d, s, rva + 20 * at.len(), o)
}

proof fn lemma_imports(
    d: Seq<u8>,
    s: Seq<pe::Section>,
    rva: int,
    at: Seq<int>,
    names: Seq<Option<int>>,
    i: int,
)
    requires
        s.len() <= usize::MAX,
        0 <= i <= at.len(),
        import_list(d, s, rva, at, names),
    ensures
        ({
            let l = loader::imports_from(d, s, rva + 20 * i);
            let n = there_before(names, i);
            &&& l.len() == there_before(names, at.len() as int) - n
            &&& forall|k: int|
                i <= k < at.len() && (#[trigger] names[k]) is Some ==> text_at(
                    d,
                    names[k]->0,
                    129,
                    l[there_before(names, k) - n],
                )
        }),
    decreases at.len() - i,
{
    let here = rva + 20 * i;
    lemma_file_place(s, here);
    match loader::offset_of(s, here) {
        Some(o) => {
            lemma_numbers(d, o + 12);
            lemma_numbers(d, o);
        },
        None => {},
    }
    if i < at.len() {
        assert(imports_at(d, s, here, at[i]));
        lemma_place_is_one(s, here, loader::offset_of(s, here), Some(at[i]));
        lemma_imports(d, s, rva, at, names, i + 1);
        let n = n32(d, at[i] + 12);
        assert(file_place(s, n, names[i]));
        lemma_file_place(s, n);
        lemma_place_is_one(s, n, loader::offset_of(s, n), names[i]);
        let desc = loader::import_at(d, s, here)->0;
        assert(desc.name == n);
        let l = loader::imports_from(d, s, here);
        let rest = loader::imports_from(d, s, here + 20);
        assert(here + 20 == rva + 20 * (i + 1));
        let first = loader::import_name(d, s, desc.name);
        assert(l == first + rest);
        match names[i] {
            Some(p) => {
                assert(first =~= seq![loader::name_at(d, p)]);
                lemma_name_text(d, p);
            },
            None => {
                assert(first =~= Seq::empty());
            },
        }
        let c = there_before(names, i);
        assert forall|k: int| i <= k < at.len() && (#[trigger] names[k]) is Some implies text_at(
            d,
            names[k]->0,
            129,
            l[there_before(names, k) - c],
        ) by {
            if k > i {
                lemma_there(names, i + 1, k);
                lemma_there(names, k + 1, at.len() as int);
                let e = there_before(names, k) - there_before(names, i + 1);
                assert(rest[e] == l[there_before(names, k) - c]);
            }
        }
    } else {
        match loader::offset_of(s, here) {
            Some(o) => {
                assert(!imports_at(d, s, here, o));
            },
            None => {},
        }
    }
}

proof fn lemma_name_text(d: Seq<u8>, at: int)
    requires
        0 <= at <= d.len(),
    ensures
        text_at(d, at, 129, loader::name_at(d, at)),
{
    let end = if at + 129 < d.len() {
        at + 129
    } else {
        d.len() as int
    };
    let buf = d.subrange(at, end);
    lemma_text_len(buf);
    let s = loader::name_at(d, at);
    assert forall|k: int| 0 <= k < s.len() implies #[trigger] s[k] == d[at + k] && s[k] != 0 by {
        assert(s[k] == buf[0 + k]);
    }
    if s.len() < buf.len() {
        assert(buf[s.len() as int] == d[at + s.len()]);
    }
}

/// Every library that an image imports from is listed by its name in the file, in the order
/// of the import table, see `import_list`; one whose name no section holds is left out.
pub proof fn law_every_imported_library_is_listed(
    data: &[u8],
    info: &PeInfo,
    at: Seq<int>,
    names: Seq<Option<int>>,
    r: Vec<Vec<u8>>,
)
    requires
        info@.lfanew >= 0,
        info@.optional.number_of_rva_and_sizes > 1,
        info@.lfanew + 136 + 8 * info@.optional.number_of_rva_and_sizes <= data@.len(),
        n32(data@, info@.lfanew + 144) > 0,
        n32(data@, info@.lfanew + 148) > 0,
        import_list(
            data@,
            info@.sections,
            n32(data@, info@.lfanew + 144),
            at,
            names,
        ),
        call_ensures(loader::log_imports, (data, info), r),
    ensures
        r@.len() == there_before(names, names.len() as int),
        forall|k: int|
            0 <= k < names.len() && (#[trigger] names[k]) is Some ==> text_at(
                data@,
                names[k]->0,
                129,
                r@[there_before(names, k)]@,
            ),
{
    let d = data@;
    let s = info@.sections;
    let rva = n32(d, info@.lfanew + 144);
    assert(s.len() == info.sections.len());
    lemma_numbers(d, info@.lfanew + 144);
    lemma_numbers(d, info@.lfanew + 148);
    lemma_imports(d, s, rva, at, names, 0);
    let l = loader::imports_from(d, s, rva);
    assert(loader::imports(d, info@) == l);
    assert(loader::strings(r@) == l);
    assert forall|k: int| 0 <= k < names.len() && (#[trigger] names[k]) is Some implies text_at(
        d,
        names[k]->0,
        129,
        r@[there_before(names, k)]@,
    ) by {
        lemma_there(names, 0, k);
        lemma_there(names, k + 1, names.len() as int);
        assert(loader::strings(r@)[there_before(names, k)] == r@[there_before(names, k)]@);
    }
}

/// An image without an import table imports nothing.
pub proof fn law_image_without_imports_lists_none(data: &[u8], info: &PeInfo, r: Vec<Vec<u8>>)
    requires
        info@.lfanew >= 0,
        info@.optional.number_of_rva_and_sizes <= 1 || info@.lfanew + 136 + 8
            * info@.optional.number_of_rva_and_sizes > data@.len() || n32(
            data@,
            info@.lfanew + 144,
        ) == 0 || n32(data@, info@.lfanew + 148) == 0,
        call_ensures(loader::log_imports, (data, info), r),
    ensures
        r@.len() == 0,
{
    lemma_numbers(data@, info@.lfanew + 144);
    lemma_numbers(data@, info@.lfanew + 148);
    assert(loader::strings(r@).len() == r@.len());
}

} // verus!
