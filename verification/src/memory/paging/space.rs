//! What a chain of page tables means: the mapping of virtual pages, and how
//! `map_page` and `unmap_page` change it.

use vstd::prelude::*;
use super::{Mem, PageEntry, ADDRESS_MASK};
use super::flags;
use super::super::phys;
use super::super::ram;

verus! {

/// The flags mark an entry as in use and lie outside of its address.
pub open spec fn table_flags(f: u64) -> bool {
    f & flags::PRESENT != 0 && f & ADDRESS_MASK == 0
}

proof fn lemma_entry_kept(m: Mem, w: Mem, table: int, index: int)
    requires
        0 <= index < 512,
        0 <= table,
        table + 4096 <= m.bytes.len(),
        w.bytes.len() == m.bytes.len(),
        forall|a: int| table + 8 * index <= a < table + 8 * index + 8 ==> #[trigger] w.bytes[a] == m.bytes[a],
    ensures
        w.entry(table, index) == m.entry(table, index),
{
    reveal(ram::le64);
}

proof fn lemma_zero_entry(m: Mem, table: int, index: int)
    requires
        0 <= index < 512,
        forall|a: int| table + 8 * index <= a < table + 8 * index + 8 ==> #[trigger] m.bytes[a] == 0,
    ensures
        m.entry(table, index) == PageEntry(0),
        !m.entry(table, index).present(),
{
    reveal(ram::le64);
    super::lemma_flag_bits(0, 0);
    let a = table + 8 * index;
    assert(m.bytes[a] == 0 && m.bytes[a + 1] == 0 && m.bytes[a + 2] == 0 && m.bytes[a + 3] == 0);
    assert(m.bytes[a + 4] == 0 && m.bytes[a + 5] == 0 && m.bytes[a + 6] == 0 && m.bytes[a + 7] == 0);
}

/// The memory with a new table behind entry `i` of the table at `t`.
pub open spec fn grown(m: Mem, t: int, i: int, f: u64) -> Mem {
    m.fresh().set_entry(t, i, PageEntry::made(m.fresh_addr() as u64, f))
}

/// What can be said of a frame of RAM that is free.
pub proof fn lemma_fresh(m: Mem)
    requires
        m.sane(),
        m.frames.lowest_free() is Some,
    ensures
        0 <= m.fresh_addr() / 4096 < m.frames.total,
        m.fresh_addr() % 4096 == 0,
        !m.frames.used[m.fresh_addr() / 4096],
        m.fresh_addr() + 4096 <= m.bytes.len(),
        0 <= m.fresh_addr() < 0x2000_0000,
{
    phys::law_alloc_takes_a_free_frame(m.frames);
}

/// The entries of other tables, and the other entries of the table, stay; the
/// new table is empty.
proof fn lemma_grown_entry(m: Mem, t: int, i: int, f: u64, u: int, j: int)
    requires
        m.sane(),
        m.frames.lowest_free() is Some,
        m.is_taken_frame(t),
        0 <= i < 512,
        0 <= j < 512,
        table_flags(f),
    ensures
        m.is_taken_frame(u) && (u != t || j != i) ==> grown(m, t, i, f).entry(u, j) == m.entry(
            u,
            j,
        ),
        u == t && j == i ==> grown(m, t, i, f).entry(u, j) == PageEntry::made(
            m.fresh_addr() as u64,
            f,
        ),
        u == t && j == i ==> grown(m, t, i, f).entry(u, j).present(),
        u == t && j == i ==> grown(m, t, i, f).entry(u, j).target() == m.fresh_addr(),
        u == m.fresh_addr() ==> !grown(m, t, i, f).entry(u, j).present(),
{
    reveal(only_tables_change);
    lemma_fresh(m);
    let w = grown(m, t, i, f);
    let fr = m.fresh_addr();
    assert(t != fr);
    if m.is_taken_frame(u) && (u != t || j != i) {
        assert(u != fr);
        lemma_entry_kept(m, w, u, j);
    }
    if u == t && j == i {
        ram::law_stored_word_is_read_back(
            m.fresh().bytes,
            t + 8 * i,
            PageEntry::made(fr as u64, f).0,
        );
        super::lemma_flag_bits(fr as u64, f);
    }
    if u == fr {
        lemma_zero_entry(w, u, j);
    }
}

/// The way to a page: four indices.
pub open spec fn page_path(p: Seq<int>) -> bool {
    p.len() == 4 && forall|i: int| 0 <= i < p.len() ==> 0 <= #[trigger] p[i] < 512
}

/// How the memory may change while one address space gets new tables or new
/// mappings: taken frames stay taken, a table is an old one or lies in a frame
/// that was free, and the bytes of taken frames that hold no table stay.
#[verifier::opaque]
pub open spec fn only_tables_change(m: Mem, w: Mem, pml4: int) -> bool {
    &&& w.frames.total == m.frames.total
    &&& w.bytes.len() == m.bytes.len()
    &&& forall|g: int| 0 <= g < phys::MAX_FRAMES && m.frames.used[g] ==> #[trigger] w.frames.used[g]
    &&& forall|q: Seq<int>|
        super::table_path(q) && (#[trigger] w.table_at(pml4, q)) is Some ==> w.table_at(pml4, q)
            == m.table_at(pml4, q) || !m.frames.used[w.table_at(pml4, q)->0 / 4096]
    &&& forall|q: Seq<int>|
        super::table_path(q) && (#[trigger] m.table_at(pml4, q)) is Some ==> w.table_at(pml4, q)
            == m.table_at(pml4, q)
    &&& forall|a: int|
        0 <= a < m.bytes.len() && m.is_taken_frame(a - a % 4096) && !is_table(
            m,
            pml4,
            a - a % 4096,
        ) ==> #[trigger] w.bytes[a] == m.bytes[a]
}

/// Some path leads to a table at `t`.
pub open spec fn is_table(m: Mem, pml4: int, t: int) -> bool {
    exists|q: Seq<int>| super::table_path(q) && #[trigger] m.table_at(pml4, q) == Some(t)
}

proof fn lemma_grown_at(m: Mem, pml4: int, p: Seq<int>, i: int, f: u64, q: Seq<int>)
    requires
        m.space_wf(pml4),
        super::table_path(p),
        p.len() <= 2,
        0 <= i < 512,
        table_flags(f),
        m.table_at(pml4, p) is Some,
        !m.entry(m.table_at(pml4, p)->0, i).present(),
        m.frames.lowest_free() is Some,
        super::table_path(q),
    ensures
        grown(m, m.table_at(pml4, p)->0, i, f).table_at(pml4, q) == (if q == p.push(i) {
            Some(m.fresh_addr())
        } else {
            m.table_at(pml4, q)
        }),
    decreases q.len(),
{
    reveal(Mem::space_wf);
    let t = m.table_at(pml4, p)->0;
    let w = grown(m, t, i, f);
    assert(m.is_taken_frame(t));
    if q.len() > 0 {
        let r = q.drop_last();
        let j = q.last();
        assert(super::table_path(r)) by {
            assert forall|k: int| 0 <= k < r.len() implies 0 <= #[trigger] r[k] < 512 by {
                assert(r[k] == q[k]);
            }
        }
        assert(0 <= q[q.len() - 1] < 512);
        lemma_grown_at(m, pml4, p, i, f, r);
        assert(q =~= r.push(j));
        assert(p.push(i).drop_last() =~= p);
        if r == p.push(i) {
            lemma_grown_entry(m, t, i, f, m.fresh_addr(), j);
            assert(m.table_at(pml4, r) is None);
            assert(q.len() == p.len() + 2);
        } else {
            match m.table_at(pml4, r) {
                Some(u) => {
                    assert(m.is_taken_frame(u));
                    lemma_grown_entry(m, t, i, f, u, j);
                    if u == t {
                        assert(r == p);
                        if j == i {
                            assert(q =~= p.push(i));
                        } else {
                            assert(q != p.push(i)) by {
                                assert(p.push(i).last() == i);
                            }
                        }
                    } else {
                        assert(r != p);
                        assert(q != p.push(i));
                    }
                },
                None => {
                    assert(q != p.push(i));
                },
            }
        }
    }
}

/// A new table changes no mapping and keeps the address space well-formed.
proof fn lemma_grown(m: Mem, pml4: int, p: Seq<int>, i: int, f: u64)
    requires
        m.space_wf(pml4),
        super::table_path(p),
        p.len() <= 2,
        0 <= i < 512,
        table_flags(f),
        m.table_at(pml4, p) is Some,
        !m.entry(m.table_at(pml4, p)->0, i).present(),
        m.frames.lowest_free() is Some,
    ensures
        ({
            let w = grown(m, m.table_at(pml4, p)->0, i, f);
            &&& w.space_wf(pml4)
            &&& w.table_at(pml4, p.push(i)) == Some(m.fresh_addr())
            &&& only_tables_change(m, w, pml4)
            &&& forall|q: Seq<int>| page_path(q) ==> #[trigger] w.page(pml4, q) == m.page(pml4, q)
        }),
{
    reveal(Mem::space_wf);
    reveal(only_tables_change);
    let t = m.table_at(pml4, p)->0;
    let w = grown(m, t, i, f);
    let n = p.push(i);
    lemma_fresh(m);
    assert(m.is_taken_frame(t));
    assert(super::table_path(n)) by {
        assert forall|k: int| 0 <= k < n.len() implies 0 <= #[trigger] n[k] < 512 by {
            if k < p.len() {
                assert(n[k] == p[k]);
            }
        }
    }
    lemma_grown_at(m, pml4, p, i, f, n);
    assert forall|q: Seq<int>| super::table_path(q) implies #[trigger] w.table_at(pml4, q) == (if q
        == n {
        Some(m.fresh_addr())
    } else {
        m.table_at(pml4, q)
    }) by {
        lemma_grown_at(m, pml4, p, i, f, q);
    }
    assert(m.table_at(pml4, n) is None) by {
        assert(n.drop_last() =~= p);
    }
    assert(w.space_wf(pml4)) by {
        assert forall|q: Seq<int>|
            super::table_path(q) && (#[trigger] w.table_at(
                pml4,
                q,
            )) is Some implies w.is_taken_frame(w.table_at(pml4, q)->0) by {
            if q != n {
                assert(m.table_at(pml4, q) == w.table_at(pml4, q));
                assert(m.is_taken_frame(m.table_at(pml4, q)->0));
            }
        }
        assert forall|q: Seq<int>, r: Seq<int>|
            super::table_path(q) && super::table_path(r) && (#[trigger] w.table_at(
                pml4,
                q,
            )) is Some && #[trigger] w.table_at(pml4, r) == w.table_at(pml4, q) implies q == r by {
            if q != n {
                assert(m.table_at(pml4, q) == w.table_at(pml4, q));
                assert(m.is_taken_frame(m.table_at(pml4, q)->0));
            }
            if r != n {
                assert(m.table_at(pml4, r) == w.table_at(pml4, r));
                assert(m.is_taken_frame(m.table_at(pml4, r)->0));
            }
        }
    }
    assert forall|q: Seq<int>| page_path(q) implies #[trigger] w.page(pml4, q) == m.page(
        pml4,
        q,
    ) by {
        let r = q.drop_last();
        let j = q.last();
        assert(0 <= q[q.len() - 1] < 512);
        assert(super::table_path(r)) by {
            assert forall|k: int| 0 <= k < r.len() implies 0 <= #[trigger] r[k] < 512 by {
                assert(r[k] == q[k]);
            }
        }
        assert(w.table_at(pml4, r) == (if r == n {
            Some(m.fresh_addr())
        } else {
            m.table_at(pml4, r)
        }));
        if r == n {
            lemma_grown_entry(m, t, i, f, m.fresh_addr(), j);
        } else if m.table_at(pml4, r) is Some {
            let u = m.table_at(pml4, r)->0;
            assert(m.is_taken_frame(u));
            assert(r.len() == 3 && r != p);
            assert(u != t);
            lemma_grown_entry(m, t, i, f, u, j);
        }
    }
    assert(only_tables_change(m, w, pml4)) by {
        assert forall|a: int|
            0 <= a < m.bytes.len() && m.is_taken_frame(a - a % 4096) && !is_table(
                m,
                pml4,
                a - a % 4096,
            ) implies #[trigger] w.bytes[a] == m.bytes[a] by {
            let b = a - a % 4096;
            assert(b != m.fresh_addr());
            assert(b != t);
        }
    }
}

/// Making sure that a table exists changes no mapping.
proof fn lemma_with_table(m: Mem, pml4: int, p: Seq<int>, i: int, f: u64)
    requires
        m.space_wf(pml4),
        super::table_path(p),
        p.len() <= 2,
        0 <= i < 512,
        table_flags(f),
        m.table_at(pml4, p) is Some,
    ensures
        m.with_table(m.table_at(pml4, p)->0, i, f) is Some <==> m.entry(
            m.table_at(pml4, p)->0,
            i,
        ).present() || m.frames.lowest_free() is Some,
        m.with_table(m.table_at(pml4, p)->0, i, f) matches Some(w) ==> {
            &&& w.space_wf(pml4)
            &&& w.table_at(pml4, p) == m.table_at(pml4, p)
            &&& w.table_at(pml4, p.push(i)) == Some(w.entry(m.table_at(pml4, p)->0, i).target())
            &&& super::table_path(p.push(i))
            &&& only_tables_change(m, w, pml4)
            &&& w.frames.free() >= m.frames.free() - 1
            &&& forall|q: Seq<int>| page_path(q) ==> #[trigger] w.page(pml4, q) == m.page(pml4, q)
        },
{
    reveal(Mem::space_wf);
    reveal(only_tables_change);
    let t = m.table_at(pml4, p)->0;
    assert(m.is_taken_frame(t));
    assert(m.holds_table(t));
    let n = p.push(i);
    assert(super::table_path(n)) by {
        assert forall|k: int| 0 <= k < n.len() implies 0 <= #[trigger] n[k] < 512 by {
            if k < p.len() {
                assert(n[k] == p[k]);
            }
        }
    }
    assert(n.drop_last() =~= p);
    if m.entry(t, i).present() {
    } else if m.frames.lowest_free() is Some {
        lemma_grown(m, pml4, p, i, f);
        lemma_grown_entry(m, t, i, f, t, i);
        phys::law_alloc_takes_a_free_frame(m.frames);
    }
}

/// Setting an entry leaves the other entries alone.
proof fn lemma_set_entry(m: Mem, t: int, i: int, e: PageEntry, u: int, j: int)
    requires
        m.sane(),
        m.is_taken_frame(t),
        m.is_taken_frame(u),
        0 <= i < 512,
        0 <= j < 512,
    ensures
        m.set_entry(t, i, e).entry(u, j) == (if u == t && j == i {
            e
        } else {
            m.entry(u, j)
        }),
{
    if u == t && j == i {
        ram::law_stored_word_is_read_back(m.bytes, t + 8 * i, e.0);
    } else {
        lemma_entry_kept(m, m.set_entry(t, i, e), u, j);
    }
}

pub proof fn lemma_set_leaf_at(m: Mem, pml4: int, p: Seq<int>, i: int, e: PageEntry, q: Seq<int>)
    requires
        m.space_wf(pml4),
        super::table_path(p),
        p.len() == 3,
        0 <= i < 512,
        m.table_at(pml4, p) is Some,
        super::table_path(q),
    ensures
        m.set_entry(m.table_at(pml4, p)->0, i, e).table_at(pml4, q) == m.table_at(pml4, q),
    decreases q.len(),
{
    reveal(Mem::space_wf);
    let t = m.table_at(pml4, p)->0;
    let w = m.set_entry(t, i, e);
    assert(m.is_taken_frame(t));
    if q.len() > 0 {
        let r = q.drop_last();
        let j = q.last();
        assert(0 <= q[q.len() - 1] < 512);
        assert(super::table_path(r)) by {
            assert forall|k: int| 0 <= k < r.len() implies 0 <= #[trigger] r[k] < 512 by {
                assert(r[k] == q[k]);
            }
        }
        lemma_set_leaf_at(m, pml4, p, i, e, r);
        if m.table_at(pml4, r) is Some {
            let u = m.table_at(pml4, r)->0;
            assert(m.is_taken_frame(u));
            assert(r != p);
            assert(u != t);
            lemma_set_entry(m, t, i, e, u, j);
        }
    }
}

/// Setting the last entry of a path changes that page and no other.
proof fn lemma_set_leaf(m: Mem, pml4: int, p: Seq<int>, i: int, e: PageEntry)
    requires
        m.space_wf(pml4),
        super::table_path(p),
        p.len() == 3,
        0 <= i < 512,
        m.table_at(pml4, p) is Some,
    ensures
        ({
            let w = m.set_entry(m.table_at(pml4, p)->0, i, e);
            &&& w.space_wf(pml4)
            &&& only_tables_change(m, w, pml4)
            &&& forall|q: Seq<int>|
                page_path(q) ==> #[trigger] w.page(pml4, q) == (if q == p.push(i) {
                    if e.present() {
                        Some(e)
                    } else {
                        None
                    }
                } else {
                    m.page(pml4, q)
                })
        }),
{
    reveal(Mem::space_wf);
    reveal(only_tables_change);
    let t = m.table_at(pml4, p)->0;
    let w = m.set_entry(t, i, e);
    assert(m.is_taken_frame(t));
    assert forall|q: Seq<int>| super::table_path(q) implies #[trigger] w.table_at(pml4, q)
        == m.table_at(pml4, q) by {
        lemma_set_leaf_at(m, pml4, p, i, e, q);
    }
    assert(w.space_wf(pml4)) by {
        assert forall|q: Seq<int>|
            super::table_path(q) && (#[trigger] w.table_at(
                pml4,
                q,
            )) is Some implies w.is_taken_frame(w.table_at(pml4, q)->0) by {
            assert(m.is_taken_frame(m.table_at(pml4, q)->0));
        }
        assert forall|q: Seq<int>, r: Seq<int>|
            super::table_path(q) && super::table_path(r) && (#[trigger] w.table_at(
                pml4,
                q,
            )) is Some && #[trigger] w.table_at(pml4, r) == w.table_at(pml4, q) implies q == r by {
            assert(m.table_at(pml4, q) == w.table_at(pml4, q));
            assert(m.table_at(pml4, r) == w.table_at(pml4, r));
        }
    }
    assert(only_tables_change(m, w, pml4));
    assert forall|q: Seq<int>| page_path(q) implies #[trigger] w.page(pml4, q) == (if q == p.push(
        i,
    ) {
        if e.present() {
            Some(e)
        } else {
            None
        }
    } else {
        m.page(pml4, q)
    }) by {
        let r = q.drop_last();
        let j = q.last();
        assert(0 <= q[q.len() - 1] < 512);
        assert(super::table_path(r)) by {
            assert forall|k: int| 0 <= k < r.len() implies 0 <= #[trigger] r[k] < 512 by {
                assert(r[k] == q[k]);
            }
        }
        assert(w.table_at(pml4, r) == m.table_at(pml4, r));
        assert(q =~= r.push(j));
        assert(p.push(i).drop_last() =~= p && p.push(i).last() == i);
        if m.table_at(pml4, r) is Some {
            let u = m.table_at(pml4, r)->0;
            assert(m.is_taken_frame(u));
            if u == t {
                assert(m.table_at(pml4, p) == m.table_at(pml4, r));
                assert(r == p);
            }
            lemma_set_entry(m, t, i, e, u, j);
        }
    }
}

pub proof fn lemma_vpath(virt: u64)
    ensures
        page_path(super::vpath(virt)),
{
    reveal(super::vpath);
}

/// Addresses on one page have the same path.
pub proof fn lemma_same_page(a: u64, b: u64)
    ensures
        super::vpath(a) == super::vpath(b) <==> super::same_page(a, b),
{
    reveal(super::vpath);
    lemma_same_page_bits(a, b);
    let p = super::vpath(a);
    let q = super::vpath(b);
    if super::same_page(a, b) {
        assert(p =~= q);
    } else {
        assert(p[0] != q[0] || p[1] != q[1] || p[2] != q[2] || p[3] != q[3]);
    }
}

proof fn lemma_same_page_bits(a: u64, b: u64)
    by (bit_vector)
    ensures
        (a / 0x80_0000_0000 % 512 == b / 0x80_0000_0000 % 512 && a / 0x4000_0000 % 512 == b
            / 0x4000_0000 % 512 && a / 0x20_0000 % 512 == b / 0x20_0000 % 512 && a / 0x1000 % 512
            == b / 0x1000 % 512) <==> a % 0x1_0000_0000_0000 / 4096 == b % 0x1_0000_0000_0000
            / 4096,
{
}

/// In a well-formed address space a page can be mapped as long as three frames
/// are free, one for each table that may be missing; no more than three are
/// taken.
pub proof fn law_three_free_frames_are_enough(
    m: Mem,
    pml4: int,
    virt: u64,
    phys_addr: u64,
    f: u64,
    rights: u64,
)
    requires
        m.space_wf(pml4),
        table_flags(f),
        table_flags(rights),
        m.frames.free() >= 3,
    ensures
        m.mapped_as(pml4, virt, phys_addr, f, rights) is Some,
        m.mapped_as(pml4, virt, phys_addr, f, rights)->0.frames.free() >= m.frames.free() - 3,
{
    reveal(Mem::space_wf);
    lemma_map(m, pml4, virt, phys_addr, f, rights);
}

proof fn lemma_map(m: Mem, pml4: int, virt: u64, phys_addr: u64, f: u64, rights: u64)
    requires
        m.space_wf(pml4),
        table_flags(f),
        table_flags(rights),
    ensures
        m.frames.free() >= 3 ==> m.mapped_as(pml4, virt, phys_addr, f, rights) is Some,
        m.mapped_as(pml4, virt, phys_addr, f, rights) matches Some(w) ==> {
            &&& w.space_wf(pml4)
            &&& w.frames.free() >= m.frames.free() - 3
            &&& only_tables_change(m, w, pml4)
            &&& forall|q: Seq<int>|
                page_path(q) ==> #[trigger] w.page(pml4, q) == (if q == super::vpath(virt) {
                    Some(PageEntry::made(phys_addr, rights))
                } else {
                    m.page(pml4, q)
                })
        },
{
    reveal(Mem::space_wf);
    reveal(only_tables_change);
    let p = super::vpath(virt);
    lemma_vpath(virt);
    let p0 = Seq::<int>::empty();
    let p1 = p0.push(p[0]);
    let p2 = p1.push(p[1]);
    let p3 = p2.push(p[2]);
    assert(p3.push(p[3]) =~= p);
    assert(m.table_at(pml4, p0) == Some(pml4));
    lemma_with_table(m, pml4, p0, p[0], f);
    phys::law_alloc_succeeds_while_frames_are_free(m.frames);
    if m.with_table(pml4, p[0], f) is Some {
        let m1 = m.with_table(pml4, p[0], f)->0;
        let pdpt = m1.entry(pml4, p[0]).target();
        lemma_with_table(m1, pml4, p1, p[1], f);
        phys::law_alloc_succeeds_while_frames_are_free(m1.frames);
        if m1.with_table(pdpt, p[1], f) is Some {
            let m2 = m1.with_table(pdpt, p[1], f)->0;
            let pd = m2.entry(pdpt, p[1]).target();
            lemma_with_table(m2, pml4, p2, p[2], f);
            phys::law_alloc_succeeds_while_frames_are_free(m2.frames);
            lemma_change_chains(m, m1, m2, pml4);
            if m2.with_table(pd, p[2], f) is Some {
                let m3 = m2.with_table(pd, p[2], f)->0;
                let pt = m3.entry(pd, p[2]).target();
                assert(m3.is_taken_frame(pt));
                let e = PageEntry::made(phys_addr, rights);
                super::lemma_flag_bits(phys_addr, rights);
                lemma_set_leaf(m3, pml4, p3, p[3], e);
                lemma_change_chains(m, m2, m3, pml4);
                lemma_change_chains(m, m3, m3.set_entry(pt, p[3], e), pml4);
            }
        }
    }
}

/// Two changes that each leave all but the tables alone, one after the other.
pub proof fn lemma_change_chains(m: Mem, v: Mem, w: Mem, pml4: int)
    requires
        m.space_wf(pml4),
        v.space_wf(pml4),
        w.space_wf(pml4),
        only_tables_change(m, v, pml4),
        only_tables_change(v, w, pml4),
    ensures
        only_tables_change(m, w, pml4),
{
    reveal(Mem::space_wf);
    reveal(only_tables_change);
    assert forall|q: Seq<int>|
        super::table_path(q) && (#[trigger] w.table_at(pml4, q)) is Some implies w.table_at(pml4, q)
        == m.table_at(pml4, q) || !m.frames.used[w.table_at(pml4, q)->0 / 4096] by {
        if w.table_at(pml4, q) == v.table_at(pml4, q) {
            assert(v.table_at(pml4, q) is Some);
        } else {
            assert(!v.frames.used[w.table_at(pml4, q)->0 / 4096]);
        }
    }
    assert forall|a: int|
        0 <= a < m.bytes.len() && m.is_taken_frame(a - a % 4096) && !is_table(
            m,
            pml4,
            a - a % 4096,
        ) implies #[trigger] w.bytes[a] == m.bytes[a] by {
        let b = a - a % 4096;
        assert(v.is_taken_frame(b));
        assert(!is_table(v, pml4, b)) by {
            if is_table(v, pml4, b) {
                let q = choose|q: Seq<int>|
                    super::table_path(q) && #[trigger] v.table_at(pml4, q) == Some(b);
                assert(v.table_at(pml4, q) == Some(b));
                assert(m.table_at(pml4, q) == Some(b));
            }
        }
        assert(v.bytes[a] == m.bytes[a]);
    }
}

/// A page that is mapped with flags of its own leads where it was told to, with
/// those flags, and every other page leads where it did before.
pub proof fn lemma_maps_that_page_alone(
    m: Mem,
    pml4: int,
    virt: u64,
    phys_addr: u64,
    f: u64,
    rights: u64,
    w: Mem,
)
    requires
        m.space_wf(pml4),
        table_flags(f),
        table_flags(rights),
        m.mapped_as(pml4, virt, phys_addr, f, rights) == Some(w),
    ensures
        w.space_wf(pml4),
        only_tables_change(m, w, pml4),
        w.leaf(pml4, virt) == Some(PageEntry::made(phys_addr, rights)),
        forall|v: u64|
            super::same_page(v, virt) ==> #[trigger] w.translate(pml4, v) == Some(
                (phys_addr & ADDRESS_MASK) as int + v % 4096,
            ),
        forall|v: u64|
            !super::same_page(v, virt) ==> #[trigger] w.leaf(pml4, v) == m.leaf(pml4, v),
        forall|v: u64|
            !super::same_page(v, virt) ==> #[trigger] w.translate(pml4, v) == m.translate(pml4, v),
{
    reveal(Mem::space_wf);
    reveal(only_tables_change);
    lemma_map(m, pml4, virt, phys_addr, f, rights);
    lemma_vpath(virt);
    super::lemma_flag_bits(phys_addr, rights);
    assert(w.page(pml4, super::vpath(virt)) == Some(PageEntry::made(phys_addr, rights)));
    assert forall|v: u64|
        super::same_page(v, virt) implies #[trigger] w.translate(pml4, v) == Some(
        (phys_addr & ADDRESS_MASK) as int + v % 4096,
    ) by {
        lemma_same_page(v, virt);
    }
    assert forall|v: u64|
        !super::same_page(v, virt) implies #[trigger] w.leaf(pml4, v) == m.leaf(pml4, v) by {
        lemma_same_page(v, virt);
        lemma_vpath(v);
        assert(w.page(pml4, super::vpath(v)) == m.page(pml4, super::vpath(v)));
    }
    assert forall|v: u64|
        !super::same_page(v, virt) implies #[trigger] w.translate(pml4, v) == m.translate(
        pml4,
        v,
    ) by {
        assert(w.leaf(pml4, v) == m.leaf(pml4, v));
    }
}

/// After `map_page` the page leads where it was told to, with the flags it was
/// given, and every other page leads where it did before. The address space
/// stays well-formed, and frames that hold no table keep their bytes.
pub proof fn law_map_page_maps_that_page_alone(
    m: Mem,
    pml4: int,
    virt: u64,
    phys_addr: u64,
    user: bool,
    w: Mem,
)
    requires
        m.space_wf(pml4),
        m.mapped(pml4, virt, phys_addr, super::map_flags(user)) == Some(w),
    ensures
        w.space_wf(pml4),
        only_tables_change(m, w, pml4),
        w.leaf(pml4, virt) == Some(PageEntry::made(phys_addr, super::map_flags(user))),
        forall|v: u64|
            super::same_page(v, virt) ==> #[trigger] w.translate(pml4, v) == Some(
                (phys_addr & ADDRESS_MASK) as int + v % 4096,
            ),
        forall|v: u64|
            !super::same_page(v, virt) ==> #[trigger] w.leaf(pml4, v) == m.leaf(pml4, v),
        forall|v: u64|
            !super::same_page(v, virt) ==> #[trigger] w.translate(pml4, v) == m.translate(pml4, v),
{
    lemma_map_flags(user);
    lemma_maps_that_page_alone(m, pml4, virt, phys_addr, super::map_flags(user), super::map_flags(user), w);
}

/// After `unmap_page` the page leads nowhere, and every other page leads where
/// it did before.
pub proof fn law_unmap_page_unmaps_that_page_alone(m: Mem, pml4: int, virt: u64)
    requires
        m.space_wf(pml4),
    ensures
        ({
            let w = m.unmapped(pml4, virt);
            &&& w.space_wf(pml4)
            &&& w.leaf(pml4, virt) is None
            &&& w.frames == m.frames
            &&& forall|v: u64|
                !super::same_page(v, virt) ==> #[trigger] w.leaf(pml4, v) == m.leaf(pml4, v)
            &&& w.bytes == super::bare(m.bytes).unmapped(pml4, virt).bytes
        }),
{
    reveal(Mem::space_wf);
    let p = super::vpath(virt);
    let w = m.unmapped(pml4, virt);
    lemma_vpath(virt);
    let r = p.drop_last();
    assert(super::table_path(r)) by {
        assert forall|k: int| 0 <= k < r.len() implies 0 <= #[trigger] r[k] < 512 by {
            assert(r[k] == p[k]);
        }
    }
    lemma_bare(m, pml4, r);
    super::lemma_flag_bits(0, 0);
    if m.table_at(pml4, r) is Some {
        lemma_set_leaf(m, pml4, r, p.last(), PageEntry(0));
        assert(r.push(p.last()) =~= p);
        assert(w.page(pml4, p) is None);
        assert forall|v: u64|
            !super::same_page(v, virt) implies #[trigger] w.leaf(pml4, v) == m.leaf(pml4, v) by {
            lemma_same_page(v, virt);
            lemma_vpath(v);
            assert(w.page(pml4, super::vpath(v)) == m.page(pml4, super::vpath(v)));
        }
    }
}

/// The way through the tables depends on the bytes of memory alone.
pub proof fn lemma_bare(m: Mem, pml4: int, path: Seq<int>)
    ensures
        super::bare(m.bytes).table_at(pml4, path) == m.table_at(pml4, path),
    decreases path.len(),
{
    if path.len() > 0 {
        lemma_bare(m, pml4, path.drop_last());
    }
}

/// The entry for a frame of RAM leads to that frame.
pub proof fn lemma_entry_of_frame(addr: u64, f: u64)
    requires
        table_flags(f),
        addr % 4096 == 0,
        addr < 0x2000_0000,
    ensures
        PageEntry::made(addr, f).target() == addr,
        PageEntry::made(addr, f).present(),
{
    super::lemma_flag_bits(addr, f);
}

/// Bytes that change only in frames which were free change no table.
pub proof fn lemma_tables_kept(m: Mem, w: Mem, pml4: int)
    requires
        m.space_wf(pml4),
        w.frames.total == m.frames.total,
        w.frames.used.len() == m.frames.used.len(),
        w.bytes.len() == m.bytes.len(),
        forall|g: int| 0 <= g < phys::MAX_FRAMES && m.frames.used[g] ==> #[trigger] w.frames.used[g],
        forall|a: int|
            0 <= a < m.bytes.len() && m.is_taken_frame(a - a % 4096) ==> #[trigger] w.bytes[a]
                == m.bytes[a],
    ensures
        w.space_wf(pml4),
        only_tables_change(m, w, pml4),
        forall|q: Seq<int>|
            super::table_path(q) ==> #[trigger] w.table_at(pml4, q) == m.table_at(pml4, q),
        forall|q: Seq<int>| page_path(q) ==> #[trigger] w.page(pml4, q) == m.page(pml4, q),
        forall|v: u64| #[trigger] w.leaf(pml4, v) == m.leaf(pml4, v),
{
    reveal(Mem::space_wf);
    reveal(only_tables_change);
    assert forall|q: Seq<int>| super::table_path(q) implies #[trigger] w.table_at(pml4, q)
        == m.table_at(pml4, q) by {
        lemma_table_kept(m, w, pml4, q);
    }
    assert(w.space_wf(pml4)) by {
        assert forall|q: Seq<int>|
            super::table_path(q) && (#[trigger] w.table_at(
                pml4,
                q,
            )) is Some implies w.is_taken_frame(w.table_at(pml4, q)->0) by {
            assert(m.is_taken_frame(m.table_at(pml4, q)->0));
        }
        assert forall|q: Seq<int>, r: Seq<int>|
            super::table_path(q) && super::table_path(r) && (#[trigger] w.table_at(
                pml4,
                q,
            )) is Some && #[trigger] w.table_at(pml4, r) == w.table_at(pml4, q) implies q == r by {
            assert(m.table_at(pml4, q) == w.table_at(pml4, q));
            assert(m.table_at(pml4, r) == w.table_at(pml4, r));
        }
    }
    assert forall|q: Seq<int>| page_path(q) implies #[trigger] w.page(pml4, q) == m.page(
        pml4,
        q,
    ) by {
        let r = q.drop_last();
        assert(0 <= q[q.len() - 1] < 512);
        assert(super::table_path(r)) by {
            assert forall|k: int| 0 <= k < r.len() implies 0 <= #[trigger] r[k] < 512 by {
                assert(r[k] == q[k]);
            }
        }
        assert(w.table_at(pml4, r) == m.table_at(pml4, r));
        if m.table_at(pml4, r) is Some {
            lemma_frame_entry_kept(m, w, m.table_at(pml4, r)->0, q.last());
        }
    }
    assert forall|v: u64| #[trigger] w.leaf(pml4, v) == m.leaf(pml4, v) by {
        lemma_vpath(v);
        assert(w.page(pml4, super::vpath(v)) == m.page(pml4, super::vpath(v)));
    }
}

proof fn lemma_frame_entry_kept(m: Mem, w: Mem, t: int, j: int)
    requires
        m.sane(),
        m.is_taken_frame(t),
        0 <= j < 512,
        w.bytes.len() == m.bytes.len(),
        forall|a: int|
            0 <= a < m.bytes.len() && m.is_taken_frame(a - a % 4096) ==> #[trigger] w.bytes[a]
                == m.bytes[a],
    ensures
        w.entry(t, j) == m.entry(t, j),
{
    assert forall|a: int| t + 8 * j <= a < t + 8 * j + 8 implies #[trigger] w.bytes[a]
        == m.bytes[a] by {
        assert(a - a % 4096 == t);
    }
    lemma_entry_kept(m, w, t, j);
}

proof fn lemma_table_kept(m: Mem, w: Mem, pml4: int, q: Seq<int>)
    requires
        m.space_wf(pml4),
        w.bytes.len() == m.bytes.len(),
        forall|a: int|
            0 <= a < m.bytes.len() && m.is_taken_frame(a - a % 4096) ==> #[trigger] w.bytes[a]
                == m.bytes[a],
        super::table_path(q),
    ensures
        w.table_at(pml4, q) == m.table_at(pml4, q),
    decreases q.len(),
{
    reveal(Mem::space_wf);
    if q.len() > 0 {
        let r = q.drop_last();
        assert(0 <= q[q.len() - 1] < 512);
        assert(super::table_path(r)) by {
            assert forall|k: int| 0 <= k < r.len() implies 0 <= #[trigger] r[k] < 512 by {
                assert(r[k] == q[k]);
            }
        }
        lemma_table_kept(m, w, pml4, r);
        if m.table_at(pml4, r) is Some {
            lemma_frame_entry_kept(m, w, m.table_at(pml4, r)->0, q.last());
        }
    }
}

/// The flags that `map_page` gives an entry are those of a table.
pub proof fn lemma_map_flags(user: bool)
    ensures
        table_flags(super::map_flags(user)),
{
    super::lemma_base_flags();
}

/// The flags of a page for user mode mark it as in use.
pub proof fn lemma_user_rights(writable: bool, executable: bool)
    ensures
        table_flags(super::user_rights(writable, executable)),
{
    super::lemma_rights_bits(
        0,
        if writable {
            flags::WRITABLE
        } else {
            0
        },
        if executable {
            0
        } else {
            flags::NO_EXECUTE
        },
    );
}

/// Only the upper 256 entries of a PML4 belong to addresses of the upper half.
pub proof fn lemma_half(virt: u64)
    ensures
        page_path(super::vpath(virt)),
        super::vpath(virt)[0] < 256 <==> virt % 0x1_0000_0000_0000 < 0x8000_0000_0000,
{
    reveal(super::vpath);
    lemma_half_bits(virt);
}

proof fn lemma_half_bits(v: u64)
    by (bit_vector)
    ensures
        v / 0x80_0000_0000 % 512 < 256 <==> v % 0x1_0000_0000_0000 < 0x8000_0000_0000,
{
}

/// The tables under a PML4 at `root` whose upper half is a copy of that at
/// `current` and whose lower half is empty.
proof fn lemma_copied_at(m: Mem, w: Mem, current: int, root: int, q: Seq<int>)
    requires
        m.space_wf(current),
        copied(m, w, current, root),
        super::table_path(q),
        q.len() > 0,
    ensures
        w.table_at(root, q) == (if q[0] < 256 {
            None
        } else {
            m.table_at(current, q)
        }),
    decreases q.len(),
{
    reveal(Mem::space_wf);
    let r = q.drop_last();
    let j = q.last();
    assert(0 <= q[q.len() - 1] < 512);
    assert(super::table_path(r)) by {
        assert forall|k: int| 0 <= k < r.len() implies 0 <= #[trigger] r[k] < 512 by {
            assert(r[k] == q[k]);
        }
    }
    if r.len() == 0 {
        assert(w.table_at(root, r) == Some(root));
        assert(m.table_at(current, r) == Some(current));
        lemma_copied_entry(m, w, current, root, j);
    } else {
        assert(r[0] == q[0]);
        lemma_copied_at(m, w, current, root, r);
        if q[0] >= 256 && m.table_at(current, r) is Some {
            lemma_frame_entry_kept(m, w, m.table_at(current, r)->0, j);
        }
    }
}

proof fn lemma_copied_entry(m: Mem, w: Mem, current: int, root: int, j: int)
    requires
        m.space_wf(current),
        copied(m, w, current, root),
        0 <= j < 512,
    ensures
        j < 256 ==> !w.entry(root, j).present(),
        j >= 256 ==> w.entry(root, j) == m.entry(current, j),
{
    reveal(Mem::space_wf);
    if j < 256 {
        lemma_zero_entry(w, root, j);
    } else {
        reveal(ram::le64);
        assert forall|k: int| 0 <= k < 8 implies #[trigger] w.bytes[root + 8 * j + k]
            == m.bytes[current + 8 * j + k] by {
            let o = 8 * j + k;
            assert(w.bytes[root + o] == m.bytes[current + o]);
        }
        let a = root + 8 * j;
        let b = current + 8 * j;
        assert(w.bytes[a + 0] == m.bytes[b + 0] && w.bytes[a + 1] == m.bytes[b + 1]);
        assert(w.bytes[a + 2] == m.bytes[b + 2] && w.bytes[a + 3] == m.bytes[b + 3]);
        assert(w.bytes[a + 4] == m.bytes[b + 4] && w.bytes[a + 5] == m.bytes[b + 5]);
        assert(w.bytes[a + 6] == m.bytes[b + 6] && w.bytes[a + 7] == m.bytes[b + 7]);
    }
}

/// The frame at `root`, which was free, holds a PML4 whose upper half is that
/// of the one at `current` and whose lower half is empty; no taken frame has
/// changed.
pub open spec fn copied(m: Mem, w: Mem, current: int, root: int) -> bool {
    &&& w.frames.total == m.frames.total
    &&& w.frames.used.len() == m.frames.used.len()
    &&& w.bytes.len() == m.bytes.len()
    &&& forall|g: int| 0 <= g < phys::MAX_FRAMES && m.frames.used[g] ==> #[trigger] w.frames.used[g]
    &&& forall|a: int|
        0 <= a < m.bytes.len() && m.is_taken_frame(a - a % 4096) ==> #[trigger] w.bytes[a]
            == m.bytes[a]
    &&& root % 4096 == 0
    &&& 0 <= root / 4096 < m.frames.total
    &&& !m.frames.used[root / 4096]
    &&& w.frames.used[root / 4096]
    &&& forall|a: int| root <= a < root + 2048 ==> #[trigger] w.bytes[a] == 0
    &&& forall|o: int|
        2048 <= o < 4096 ==> #[trigger] w.bytes[root + o] == m.bytes[current + o]
}

/// An address space with a copied upper half is well-formed: its upper half is
/// mapped as that of the other one, its lower half is not mapped.
pub proof fn lemma_copied(m: Mem, w: Mem, current: int, root: int)
    requires
        m.space_wf(current),
        copied(m, w, current, root),
    ensures
        w.space_wf(root),
        forall|v: u64|
            #[trigger] w.leaf(root, v) == (if v % 0x1_0000_0000_0000 < 0x8000_0000_0000 {
                None
            } else {
                m.leaf(current, v)
            }),
{
    reveal(Mem::space_wf);
    assert(w.is_taken_frame(root));
    assert forall|q: Seq<int>|
        super::table_path(q) && (#[trigger] w.table_at(root, q)) is Some implies w.is_taken_frame(
        w.table_at(root, q)->0,
    ) && (q.len() == 0 || (w.table_at(root, q) == m.table_at(current, q) && m.is_taken_frame(
        w.table_at(root, q)->0,
    ))) by {
        if q.len() > 0 {
            lemma_copied_at(m, w, current, root, q);
            assert(m.is_taken_frame(m.table_at(current, q)->0));
        }
    }
    assert forall|q: Seq<int>, r: Seq<int>|
        super::table_path(q) && super::table_path(r) && (#[trigger] w.table_at(root, q)) is Some
            && #[trigger] w.table_at(root, r) == w.table_at(root, q) implies q == r by {
        if q.len() == 0 && r.len() == 0 {
            assert(q =~= r);
        } else if q.len() == 0 {
            assert(w.table_at(root, q) == Some(root));
            assert(m.is_taken_frame(w.table_at(root, r)->0));
        } else if r.len() == 0 {
            assert(w.table_at(root, r) == Some(root));
            assert(m.is_taken_frame(w.table_at(root, q)->0));
        } else {
            assert(m.table_at(current, q) == w.table_at(root, q));
            assert(m.table_at(current, r) == w.table_at(root, r));
        }
    }
    assert forall|v: u64|
        #[trigger] w.leaf(root, v) == (if v % 0x1_0000_0000_0000 < 0x8000_0000_0000 {
            None
        } else {
            m.leaf(current, v)
        }) by {
        let p = super::vpath(v);
        lemma_half(v);
        let r = p.drop_last();
        assert(0 <= p[p.len() - 1] < 512);
        assert(super::table_path(r)) by {
            assert forall|k: int| 0 <= k < r.len() implies 0 <= #[trigger] r[k] < 512 by {
                assert(r[k] == p[k]);
            }
        }
        assert(r[0] == p[0]);
        lemma_copied_at(m, w, current, root, r);
        if p[0] >= 256 && m.table_at(current, r) is Some {
            lemma_frame_entry_kept(m, w, m.table_at(current, r)->0, p.last());
        }
    }
}

/// A well-formed address space lies in a memory that is in order.
pub proof fn lemma_space_sane(m: Mem, pml4: int)
    requires
        m.space_wf(pml4),
    ensures
        m.sane(),
{
    reveal(Mem::space_wf);
}

/// Nothing changes while nothing is done.
pub proof fn lemma_no_change(m: Mem, pml4: int)
    ensures
        only_tables_change(m, m, pml4),
{
    reveal(only_tables_change);
}

} // verus!
