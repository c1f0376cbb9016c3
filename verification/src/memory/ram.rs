//! The bytes of physical RAM. A position in the slice is a physical address.

use vstd::prelude::*;

verus! {

/// `ram` with `len` bytes from `addr` on set to `b`.
pub open spec fn filled(ram: Seq<u8>, addr: int, len: int, b: u8) -> Seq<u8> {
    Seq::new(
        ram.len(),
        |i: int|
            if addr <= i < addr + len {
                b
            } else {
                ram[i]
            },
    )
}

/// `ram` with `data` at `addr`.
pub open spec fn patched(ram: Seq<u8>, addr: int, data: Seq<u8>) -> Seq<u8> {
    Seq::new(
        ram.len(),
        |i: int|
            if addr <= i < addr + data.len() {
                data[i - addr]
            } else {
                ram[i]
            },
    )
}

/// The 16-bit number at `addr`, low byte first.
pub open spec fn le16(ram: Seq<u8>, addr: int) -> u16 {
    (ram[addr] + 0x100 * ram[addr + 1]) as u16
}

/// The 32-bit number at `addr`, low byte first.
pub open spec fn le32(ram: Seq<u8>, addr: int) -> u32 {
    (ram[addr] + 0x100 * ram[addr + 1] + 0x1_0000 * ram[addr + 2] + 0x100_0000 * ram[addr
        + 3]) as u32
}

/// The 64-bit number at `addr`, low byte first.
#[verifier::opaque]
pub open spec fn le64(ram: Seq<u8>, addr: int) -> u64 {
    (le32(ram, addr) + 0x1_0000_0000 * le32(ram, addr + 4)) as u64
}

/// The bytes of a 64-bit number, low byte first.
pub open spec fn bytes64(v: u64) -> Seq<u8> {
    seq![
        (v % 0x100) as u8,
        (v / 0x100 % 0x100) as u8,
        (v / 0x1_0000 % 0x100) as u8,
        (v / 0x100_0000 % 0x100) as u8,
        (v / 0x1_0000_0000 % 0x100) as u8,
        (v / 0x100_0000_0000 % 0x100) as u8,
        (v / 0x1_0000_0000_0000 % 0x100) as u8,
        (v / 0x100_0000_0000_0000 % 0x100) as u8,
    ]
}

/// `ram` with the 64-bit number `v` at `addr`.
pub open spec fn with64(ram: Seq<u8>, addr: int, v: u64) -> Seq<u8> {
    patched(ram, addr, bytes64(v))
}

/// A number that was stored is read back.
pub proof fn law_stored_word_is_read_back(ram: Seq<u8>, addr: int, v: u64)
    requires
        0 <= addr,
        addr + 8 <= ram.len(),
    ensures
        le64(with64(ram, addr, v), addr) == v,
{
    reveal(le64);
    let w = with64(ram, addr, v);
    let b = bytes64(v);
    assert(w[addr] == b[0] && w[addr + 1] == b[1] && w[addr + 2] == b[2] && w[addr + 3] == b[3]);
    assert(w[addr + 4] == b[4] && w[addr + 5] == b[5] && w[addr + 6] == b[6] && w[addr + 7]
        == b[7]);
    let lo = v % 0x1_0000_0000;
    let hi = v / 0x1_0000_0000;
    lemma_split32(v);
    assert(le32(w, addr) == lo);
    assert(le32(w, addr + 4) == hi);
}

proof fn lemma_split32(v: u64)
    by (bit_vector)
    ensures
        v % 0x1_0000_0000 == (v % 0x100) + 0x100 * (v / 0x100 % 0x100) + 0x1_0000 * (v / 0x1_0000
            % 0x100) + 0x100_0000 * (v / 0x100_0000 % 0x100),
        v / 0x1_0000_0000 == (v / 0x1_0000_0000 % 0x100) + 0x100 * (v / 0x100_0000_0000 % 0x100)
            + 0x1_0000 * (v / 0x1_0000_0000_0000 % 0x100) + 0x100_0000 * (v
            / 0x100_0000_0000_0000 % 0x100),
{
}

/// A number elsewhere is untouched by a store.
pub proof fn law_store_leaves_other_words_alone(ram: Seq<u8>, addr: int, data: Seq<u8>, at: int)
    requires
        0 <= at,
        at + 8 <= ram.len(),
        at + 8 <= addr || addr + data.len() <= at,
    ensures
        le64(patched(ram, addr, data), at) == le64(ram, at),
{
    reveal(le64);
}

/// Sets `len` bytes from `addr` on to `b`.
pub fn fill(ram: &mut [u8], addr: usize, len: usize, b: u8)
    requires
        addr + len <= old(ram).len(),
    ensures
        final(ram)@ == filled(old(ram)@, addr as int, len as int, b),
{
    let mut i: usize = 0;
    while i < len
        invariant
            i <= len,
            addr + len <= ram.len(),
            ram@.len() == old(ram)@.len(),
            ram@ == filled(old(ram)@, addr as int, i as int, b),
        decreases len - i,
    {
        ram[addr + i] = b;
        i = i + 1;
        assert(ram@ =~= filled(old(ram)@, addr as int, i as int, b));
    }
    assert(ram@ =~= filled(old(ram)@, addr as int, len as int, b));
}

/// Copies `n` bytes of `src`, from `from` on, to position `at` of `dst`.
pub fn copy(dst: &mut [u8], at: usize, src: &[u8], from: usize, n: usize)
    requires
        at + n <= old(dst).len(),
        from + n <= src.len(),
    ensures
        final(dst)@ == patched(old(dst)@, at as int, src@.subrange(from as int, from + n)),
{
    let mut i: usize = 0;
    while i < n
        invariant
            i <= n,
            at + n <= dst.len(),
            dst@.len() == old(dst)@.len(),
            from + n <= src.len(),
            dst@ == patched(old(dst)@, at as int, src@.subrange(from as int, from + i)),
        decreases n - i,
    {
        dst[at + i] = src[from + i];
        i = i + 1;
        assert(dst@ =~= patched(old(dst)@, at as int, src@.subrange(from as int, from + i)));
    }
    assert(dst@ =~= patched(old(dst)@, at as int, src@.subrange(from as int, from + n)));
}

/// Copies `n` bytes within the RAM, from `from` on to position `at`.
pub fn copy_within(ram: &mut [u8], at: usize, from: usize, n: usize)
    requires
        at + n <= old(ram).len(),
        from + n <= old(ram).len(),
        at == from || at + n <= from || from + n <= at,
    ensures
        final(ram)@ == patched(old(ram)@, at as int, old(ram)@.subrange(from as int, from + n)),
{
    let mut i: usize = 0;
    while i < n
        invariant
            i <= n,
            at + n <= ram.len(),
            from + n <= ram.len(),
            at == from || at + n <= from || from + n <= at,
            ram@.len() == old(ram)@.len(),
            ram@ == patched(old(ram)@, at as int, old(ram)@.subrange(from as int, from + i)),
        decreases n - i,
    {
        ram[at + i] = ram[from + i];
        i = i + 1;
        assert(ram@ =~= patched(old(ram)@, at as int, old(ram)@.subrange(from as int, from + i)));
    }
    assert(ram@ =~= patched(old(ram)@, at as int, old(ram)@.subrange(from as int, from + n)));
}

/// Reads a 16-bit number.
pub fn read_u16(ram: &[u8], addr: usize) -> (r: u16)
    requires
        addr + 2 <= ram.len(),
    ensures
        r == le16(ram@, addr as int),
{
    ram[addr] as u16 + 0x100 * (ram[addr + 1] as u16)
}

/// Reads a 32-bit number.
pub fn read_u32(ram: &[u8], addr: usize) -> (r: u32)
    requires
        addr + 4 <= ram.len(),
    ensures
        r == le32(ram@, addr as int),
{
    ram[addr] as u32 + 0x100 * (ram[addr + 1] as u32) + 0x1_0000 * (ram[addr + 2] as u32)
        + 0x100_0000 * (ram[addr + 3] as u32)
}

/// Reads a 64-bit number.
pub fn read_u64(ram: &[u8], addr: usize) -> (r: u64)
    requires
        addr + 8 <= ram.len(),
    ensures
        r == le64(ram@, addr as int),
{
    reveal(le64);
    read_u32(ram, addr) as u64 + 0x1_0000_0000 * (read_u32(ram, addr + 4) as u64)
}

/// Stores a 64-bit number.
pub fn write_u64(ram: &mut [u8], addr: usize, v: u64)
    requires
        addr + 8 <= old(ram).len(),
    ensures
        final(ram)@ == with64(old(ram)@, addr as int, v),
        le64(final(ram)@, addr as int) == v,
{
    ram[addr] = (v % 0x100) as u8;
    ram[addr + 1] = (v / 0x100 % 0x100) as u8;
    ram[addr + 2] = (v / 0x1_0000 % 0x100) as u8;
    ram[addr + 3] = (v / 0x100_0000 % 0x100) as u8;
    ram[addr + 4] = (v / 0x1_0000_0000 % 0x100) as u8;
    ram[addr + 5] = (v / 0x100_0000_0000 % 0x100) as u8;
    ram[addr + 6] = (v / 0x1_0000_0000_0000 % 0x100) as u8;
    ram[addr + 7] = (v / 0x100_0000_0000_0000 % 0x100) as u8;
    proof {
        assert(ram@ =~= with64(old(ram)@, addr as int, v));
        law_stored_word_is_read_back(old(ram)@, addr as int, v);
    }
}

} // verus!
