//! Sections of a program, wherever they lie: which bytes of the file a page of a section
//! shows, whatever the other sections do.

use vstd::prelude::*;
use crate::loader;
use crate::loader::{LoadError, LoadedImage};
use crate::memory::paging;
use crate::memory::paging::space;
use crate::memory::paging::Mem;
use crate::memory::phys::FrameAllocator;
use crate::userspace;
use crate::win32::pe;
use super::programs::{
    extent, is_image, lemma_extents, lemma_image, pages, section_base, section_byte,
    section_header, section_total,
};
use super::spaces::{lemma_page_entry, on_one_page, seen};

verus! {

/// Where page `q` of a block starts that is mapped from `base` on.
pub open spec fn page_addr(base: u64, q: int) -> u64 {
    (base + q * 4096) as u64
}

proof fn lemma_pages_keep(
    m: Mem,
    cr3: int,
    base: u64,
    data: Seq<u8>,
    rights: u64,
    i: int,
    n: int,
    v: u64,
)
    requires
        space::table_flags(rights),
        m.space_wf(cr3),
        0 <= i,
        userspace::pages_mapped(m, cr3, base, data, rights, i, n) is Some,
        forall|j: int| i <= j < n ==> !paging::same_page(v, #[trigger] page_addr(base, j)),
    ensures
        ({
            let w = (userspace::pages_mapped(m, cr3, base, data, rights, i, n)->0).0;
            &&& w.space_wf(cr3)
            &&& space::only_tables_change(m, w, cr3)
            &&& w.leaf(cr3, v) == m.leaf(cr3, v)
        }),
    decreases n - i,
{
    if i < n && m.frames.lowest_free() is Some {
        let virt = page_addr(base, i);
        let m2 = userspace::page_loaded(m, data, i).mapped_as(
            cr3,
            virt,
            m.fresh_addr() as u64,
            paging::map_flags(true),
            rights,
        )->0;
        userspace::lemma_page(m, cr3, virt, data, rights, i, m2);
        lemma_pages_keep(m2, cr3, base, data, rights, i + 1, n, v);
        let w = (userspace::pages_mapped(m2, cr3, base, data, rights, i + 1, n)->0).0;
        space::lemma_change_chains(m, m2, w, cr3);
        assert(m2.leaf(cr3, v) == m.leaf(cr3, v));
    } else {
        space::lemma_no_change(m, cr3);
    }
}

/// Pages that are mapped leave an address space in order.
proof fn lemma_pages_order(
    m: Mem,
    cr3: int,
    base: u64,
    data: Seq<u8>,
    rights: u64,
    i: int,
    n: int,
)
    requires
        space::table_flags(rights),
        m.space_wf(cr3),
        0 <= i,
        userspace::pages_mapped(m, cr3, base, data, rights, i, n) is Some,
    ensures
        (userspace::pages_mapped(m, cr3, base, data, rights, i, n)->0).0.space_wf(cr3),
    decreases n - i,
{
    if i < n && m.frames.lowest_free() is Some {
        let virt = page_addr(base, i);
        let m2 = userspace::page_loaded(m, data, i).mapped_as(
            cr3,
            virt,
            m.fresh_addr() as u64,
            paging::map_flags(true),
            rights,
        )->0;
        userspace::lemma_page(m, cr3, virt, data, rights, i, m2);
        lemma_pages_order(m2, cr3, base, data, rights, i + 1, n);
    }
}

/// A page that is mapped and not touched again holds its part of the data.
proof fn lemma_page_stays(m: Mem, w: Mem, cr3: int, v: u64, content: Seq<u8>, rights: u64)
    requires
        m.space_wf(cr3),
        space::only_tables_change(m, w, cr3),
        userspace::page_holds(m, cr3, v, content, rights),
        w.leaf(cr3, v) == m.leaf(cr3, v),
    ensures
        userspace::page_holds(w, cr3, v, content, rights),
{
    userspace::lemma_frame_kept(m, w, cr3, m.leaf(cr3, v)->0.target(), content);
}

proof fn lemma_page_of_block(
    m: Mem,
    cr3: int,
    base: u64,
    data: Seq<u8>,
    rights: u64,
    i: int,
    n: int,
    q: int,
)
    requires
        space::table_flags(rights),
        m.space_wf(cr3),
        0 <= i <= q < n,
        base + n * 4096 <= 0x1_0000_0000_0000,
        userspace::pages_mapped(m, cr3, base, data, rights, i, n) matches Some((_, true)),
    ensures
        ({
            let w = (userspace::pages_mapped(m, cr3, base, data, rights, i, n)->0).0;
            &&& w.space_wf(cr3)
            &&& userspace::page_holds(
                w,
                cr3,
                page_addr(base, q),
                userspace::page_of(data, q),
                rights,
            )
        }),
    decreases n - i,
{
    let virt = page_addr(base, i);
    let m2 = userspace::page_loaded(m, data, i).mapped_as(
        cr3,
        virt,
        m.fresh_addr() as u64,
        paging::map_flags(true),
        rights,
    )->0;
    userspace::lemma_page(m, cr3, virt, data, rights, i, m2);
    if i < q {
        lemma_page_of_block(m2, cr3, base, data, rights, i + 1, n, q);
    } else {
        assert forall|j: int| i + 1 <= j < n implies !paging::same_page(
            virt,
            #[trigger] page_addr(base, j),
        ) by {}
        lemma_pages_keep(m2, cr3, base, data, rights, i + 1, n, virt);
        let w = (userspace::pages_mapped(m2, cr3, base, data, rights, i + 1, n)->0).0;
        lemma_page_stays(m2, w, cr3, virt, userspace::page_of(data, q), rights);
    }
}

/// Section `i` has no page where `v` is.
pub open spec fn elsewhere(d: Seq<u8>, i: int, v: u64) -> bool {
    forall|q: int|
        0 <= q < pages(extent(d, i)) ==> !on_one_page(
            v as int,
            #[trigger] page_addr(section_base(d, i) as u64, q) as int,
        )
}

proof fn lemma_sections_keep(
    m: Mem,
    cr3: int,
    base: u64,
    d: Seq<u8>,
    s: Seq<pe::Section>,
    i: int,
    n: int,
    v: u64,
)
    requires
        m.space_wf(cr3),
        is_image(d),
        s == pe::pe_of(d).sections,
        base == pe::pe_of(d).optional.image_base,
        0 <= i <= s.len(),
        loader::sections_mapped(m, cr3, base, d, s, i, n) matches Some((_, Ok(_))),
        forall|k: int| i <= k < s.len() ==> #[trigger] elsewhere(d, k, v),
    ensures
        ({
            let w = (loader::sections_mapped(m, cr3, base, d, s, i, n)->0).0;
            &&& w.space_wf(cr3)
            &&& space::only_tables_change(m, w, cr3)
            &&& w.leaf(cr3, v) == m.leaf(cr3, v)
        }),
    decreases s.len() - i,
{
    lemma_image(d);
    lemma_extents(d);
    if i < s.len() {
        let x = s[i];
        assert(loader::section_size(x) == extent(d, i));
        assert(loader::section_start(base, x) == section_base(d, i));
        if loader::section_size(x) == 0 {
            lemma_sections_keep(m, cr3, base, d, s, i + 1, n, v);
        } else {
            let at = (base + x.virtual_address) as u64;
            let part = loader::section_data(d, x);
            let f = loader::section_rights(x);
            let c = pages(extent(d, i));
            space::lemma_user_rights(loader::section_writable(x), loader::section_executable(x));
            assert(elsewhere(d, i, v));
            assert forall|j: int| 0 <= j < c implies !paging::same_page(
                v,
                #[trigger] page_addr(at, j),
            ) by {
                assert(!on_one_page(v as int, page_addr(at, j) as int));
            }
            lemma_pages_keep(m, cr3, at, part, f, 0, c, v);
            let m2 = (userspace::pages_mapped(m, cr3, at, part, f, 0, c)->0).0;
            lemma_sections_keep(m2, cr3, base, d, s, i + 1, n + 1, v);
            let w = (loader::sections_mapped(m2, cr3, base, d, s, i + 1, n + 1)->0).0;
            space::lemma_change_chains(m, m2, w, cr3);
        }
    } else {
        space::lemma_no_change(m, cr3);
    }
}

proof fn lemma_section_page(
    m: Mem,
    cr3: int,
    base: u64,
    d: Seq<u8>,
    s: Seq<pe::Section>,
    i: int,
    n: int,
    j: int,
    q: int,
)
    requires
        m.space_wf(cr3),
        is_image(d),
        s == pe::pe_of(d).sections,
        base == pe::pe_of(d).optional.image_base,
        0 <= i <= j < s.len(),
        0 <= q < pages(extent(d, j)),
        section_base(d, j) + pages(extent(d, j)) * 4096 <= 0x1_0000_0000_0000,
        loader::sections_mapped(m, cr3, base, d, s, i, n) matches Some((_, Ok(_))),
        forall|k: int|
            j < k < s.len() ==> #[trigger] elsewhere(
                d,
                k,
                page_addr(section_base(d, j) as u64, q),
            ),
    ensures
        ({
            let w = (loader::sections_mapped(m, cr3, base, d, s, i, n)->0).0;
            &&& w.space_wf(cr3)
            &&& userspace::page_holds(
                w,
                cr3,
                page_addr(section_base(d, j) as u64, q),
                userspace::page_of(loader::section_data(d, s[j]), q),
                loader::section_rights(s[j]),
            )
        }),
    decreases j - i,
{
    lemma_image(d);
    lemma_extents(d);
    let x = s[i];
    assert(loader::section_size(x) == extent(d, i));
    assert(loader::section_start(base, x) == section_base(d, i));
    let at = (base + x.virtual_address) as u64;
    let part = loader::section_data(d, x);
    let f = loader::section_rights(x);
    let c = pages(extent(d, i));
    space::lemma_user_rights(loader::section_writable(x), loader::section_executable(x));
    if loader::section_size(x) == 0 {
        lemma_section_page(m, cr3, base, d, s, i + 1, n, j, q);
    } else {
        let m2 = (userspace::pages_mapped(m, cr3, at, part, f, 0, c)->0).0;
        if i < j {
            lemma_pages_order(m, cr3, at, part, f, 0, c);
            lemma_section_page(m2, cr3, base, d, s, i + 1, n + 1, j, q);
        } else {
            let v = page_addr(at, q);
            lemma_page_of_block(m, cr3, at, part, f, 0, c, q);
            lemma_sections_keep(m2, cr3, base, d, s, i + 1, n + 1, v);
            let w = (loader::sections_mapped(m2, cr3, base, d, s, i + 1, n + 1)->0).0;
            lemma_page_stays(m2, w, cr3, v, userspace::page_of(part, q), f);
        }
    }
}

proof fn lemma_loaded_page(
    m: Mem,
    current: int,
    d: Seq<u8>,
    w: Mem,
    image: LoadedImage,
    j: int,
    q: int,
)
    requires
        m.space_wf(current),
        is_image(d),
        loader::pe_loaded(m, current, d) == Some((w, Ok::<LoadedImage, LoadError>(image))),
        0 <= j < section_total(d),
        0 <= q < pages(extent(d, j)),
        section_base(d, j) + pages(extent(d, j)) * 4096 <= 0x7FFF_FFFE_0000,
        forall|i: int|
            j < i < section_total(d) ==> #[trigger] elsewhere(
                d,
                i,
                page_addr(section_base(d, j) as u64, q),
            ),
    ensures
        w.sane(),
        userspace::page_holds(
            w,
            image.cr3 as int,
            page_addr(section_base(d, j) as u64, q),
            userspace::page_of(loader::section_data(d, pe::pe_of(d).sections[j]), q),
            loader::section_rights(pe::pe_of(d).sections[j]),
        ),
{
    let p = pe::pe_of(d);
    let s = p.sections;
    assert(s.len() == section_total(d)) by {
        lemma_image(d);
    }
    assert(pe::pe_error(d) is None) by {
        lemma_image(d);
    }
    reveal(loader::pe_loaded);
    space::lemma_space_sane(m, current);
    space::lemma_fresh(m);
    userspace::law_new_space_holds_the_kernel_alone(m, current);
    let base = p.optional.image_base;
    let cr3 = m.fresh_addr();
    let m0 = userspace::space_made(m, current);
    let headers = p.optional.size_of_headers as int;
    let f = paging::map_flags(true);
    space::lemma_map_flags(true);
    let part = d.subrange(0, headers);
    lemma_pages_order(m0, cr3, base, part, f, 0, userspace::page_count(headers));
    let m1 = (loader::block_mapped(m0, cr3, base as int, part, headers, f)->0).0;
    lemma_section_page(m1, cr3, base, d, s, 0, 0, j, q);
    let m2 = (loader::sections_mapped(m1, cr3, base, d, s, 0, 0)->0).0;
    let v = page_addr(section_base(d, j) as u64, q);
    lemma_base_is_positive(d, j);
    lemma_below_stack(d, j, q);
    lemma_pages_keep(m2, cr3, 0x7FFF_FFFE_0000u64, Seq::empty(), f, 0, 16, v);
    let content = userspace::page_of(loader::section_data(d, s[j]), q);
    lemma_page_stays(m2, w, cr3, v, content, loader::section_rights(s[j]));
    space::lemma_space_sane(w, cr3);
}

proof fn lemma_below_stack(d: Seq<u8>, j: int, q: int)
    requires
        0 <= q < pages(extent(d, j)),
        0 <= section_base(d, j),
        section_base(d, j) + pages(extent(d, j)) * 4096 <= 0x7FFF_FFFE_0000,
    ensures
        forall|i: int|
            0 <= i < 16 ==> !paging::same_page(
                page_addr(section_base(d, j) as u64, q),
                #[trigger] page_addr(0x7FFF_FFFE_0000u64, i),
            ),
{
    let v = page_addr(section_base(d, j) as u64, q);
    assert(v + 4096 <= 0x7FFF_FFFE_0000);
}

proof fn lemma_page_shows(
    w: Mem,
    cr3: int,
    d: Seq<u8>,
    j: int,
    q: int,
    k: int,
)
    requires
        is_image(d),
        w.sane(),
        0 <= j < section_total(d),
        0 <= q,
        0 <= section_base(d, j),
        section_base(d, j) + (q + 1) * 4096 <= 0x7FFF_FFFE_0000,
        0 <= k < 4096,
        userspace::page_holds(
            w,
            cr3,
            page_addr(section_base(d, j) as u64, q),
            userspace::page_of(loader::section_data(d, pe::pe_of(d).sections[j]), q),
            loader::section_rights(pe::pe_of(d).sections[j]),
        ),
    ensures
        seen(w.bytes, cr3, (section_base(d, j) + q * 4096) / 4096 * 4096 + k) == Some(
            section_byte(d, j, q * 4096 + k),
        ),
{
    let x = pe::pe_of(d).sections[j];
    let v = page_addr(section_base(d, j) as u64, q);
    let content = userspace::page_of(loader::section_data(d, x), q);
    let rights = loader::section_rights(x);
    let page = (v / 4096 * 4096) as u64;
    assert(paging::same_page(page, v));
    space::lemma_same_page(page, v);
    assert(userspace::page_holds(w, cr3, page, content, rights));
    userspace::lemma_byte_at(w, cr3, page, k, content, rights);
    lemma_page_entry(w, cr3, (page + k) as u64);
    assert(content[k] == section_byte(d, j, q * 4096 + k)) by {
        lemma_image(d);
        assert(super::programs::is_section(x, d, section_header(d, j)));
    }
}

/// Page `q` of section `j` shows its 4096 bytes of the section, from the start of the page
/// on that holds its address: those of the file as far as the section has any there, and
/// zeros behind them. This holds of every section below the user stack and each of its pages
/// on which no later section lies, whatever the other sections are and wherever they lie.
pub proof fn law_page_of_a_section_shows_its_bytes(
    frames: &mut FrameAllocator,
    bytes: &mut [u8],
    current: u64,
    data: &[u8],
    name: &str,
    image: LoadedImage,
    j: int,
    q: int,
    k: int,
)
    requires
        paging::mem(old(frames), old(bytes)@).space_wf(current as int),
        is_image(data@),
        call_ensures(
            loader::load_pe,
            (frames, bytes, current, data, name),
            Ok::<LoadedImage, LoadError>(image),
        ),
        0 <= j < section_total(data@),
        0 <= q < pages(extent(data@, j)),
        section_base(data@, j) + pages(extent(data@, j)) * 4096 <= 0x7FFF_FFFE_0000,
        forall|i: int|
            j < i < section_total(data@) ==> #[trigger] elsewhere(
                data@,
                i,
                page_addr(section_base(data@, j) as u64, q),
            ),
        0 <= k < 4096,
    ensures
        seen(
            final(bytes)@,
            image.cr3 as int,
            (section_base(data@, j) + q * 4096) / 4096 * 4096 + k,
        ) == Some(section_byte(data@, j, q * 4096 + k)),
{
    let d = data@;
    let m = paging::mem(old(frames), old(bytes)@);
    let w = paging::mem(final(frames), final(bytes)@);
    assert(loader::pe_loaded(m, current as int, d) == Some(
        (w, Ok::<LoadedImage, LoadError>(image)),
    ));
    lemma_loaded_page(m, current as int, d, w, image, j, q);
    assert((q + 1) * 4096 <= pages(extent(d, j)) * 4096);
    lemma_base_is_positive(d, j);
    lemma_page_shows(w, image.cr3 as int, d, j, q, k);
}

proof fn lemma_base_is_positive(d: Seq<u8>, j: int)
    ensures
        0 <= section_base(d, j),
{
}

} // verus!
