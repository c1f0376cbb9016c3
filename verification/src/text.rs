//! Text: bytes that are UTF-8, and numbers in decimal digits.

use vstd::prelude::*;
use vstd::string::*;
use vstd::utf8::*;
use crate::memory::ram;

verus! {

/// Calls `core::str::from_utf8`: bytes that are UTF-8 as a text with just these
/// bytes, and nothing for others.
#[verifier::external_body]
pub(crate) fn text_of(v: &[u8]) -> (r: Option<&str>)
    ensures
        r is Some <==> valid_utf8(v@),
        r matches Some(s) ==> s.spec_bytes() == v@,
{
    core::str::from_utf8(v).ok()
}

/// ASCII is UTF-8.
pub proof fn lemma_ascii_is_utf8(b: Seq<u8>)
    requires
        forall|i: int| 0 <= i < b.len() ==> b[i] < 128,
    ensures
        valid_utf8(b),
    decreases b.len(),
{
    if b.len() > 0 {
        let c = b[0];
        assert(c & 0x7Fu8 < 128) by (bit_vector);
        assert(valid_first_scalar(b));
        assert(pop_first_scalar(b) =~= b.subrange(1, b.len() as int));
        lemma_ascii_is_utf8(b.subrange(1, b.len() as int));
    }
}

/// The decimal digits of a number.
pub open spec fn decimal(n: nat) -> Seq<u8>
    decreases n,
{
    if n < 10 {
        seq![(0x30 + n) as u8]
    } else {
        decimal(n / 10).push((0x30 + n % 10) as u8)
    }
}

/// The value of some decimal digits.
pub open spec fn value_of(s: Seq<u8>) -> int
    decreases s.len(),
{
    if s.len() == 0 {
        0
    } else {
        value_of(s.drop_last()) * 10 + (s.last() - 0x30)
    }
}

/// The digits of a number have its value; there is at least one, and none in
/// front is 0 unless it is the only one.
pub proof fn law_digits_have_the_value(n: nat)
    ensures
        value_of(decimal(n)) == n,
        decimal(n).len() > 0,
        decimal(n)[0] == 0x30 <==> n == 0,
        forall|i: int| 0 <= i < decimal(n).len() ==> 0x30 <= #[trigger] decimal(n)[i] <= 0x39,
    decreases n,
{
    if n < 10 {
        assert(decimal(n).drop_last() =~= Seq::empty());
        assert(value_of(Seq::<u8>::empty()) == 0);
    } else {
        law_digits_have_the_value(n / 10);
        assert(decimal(n).drop_last() =~= decimal(n / 10));
    }
}

/// A number has at most `k` digits if it is small enough.
proof fn lemma_decimal_len(n: nat, k: nat, limit: nat)
    requires
        k > 0,
        limit == pow10(k),
        n < limit,
    ensures
        decimal(n).len() <= k,
    decreases k,
{
    reveal_with_fuel(pow10, 2);
    if n >= 10 {
        assert(k > 1);
        lemma_decimal_len(n / 10, (k - 1) as nat, pow10((k - 1) as nat));
    }
}

/// A power of ten.
spec fn pow10(k: nat) -> nat
    decreases k,
{
    if k == 0 {
        1
    } else {
        10 * pow10((k - 1) as nat)
    }
}

/// The decimal digits of a number.
pub fn digits(n: u64) -> (r: Vec<u8>)
    ensures
        r@ == decimal(n as nat),
        r@.len() <= 20,
        n <= u32::MAX ==> r@.len() <= 10,
{
    proof {
        reveal_with_fuel(pow10, 21);
        assert(n < pow10(20));
        lemma_decimal_len(n as nat, 20, pow10(20));
        if n <= u32::MAX {
            lemma_decimal_len(n as nat, 10, pow10(10));
        }
    }
    let mut out: Vec<u8> = Vec::new();
    push_digits(&mut out, n);
    out
}

/// Adds the decimal digits of a number.
fn push_digits(out: &mut Vec<u8>, n: u64)
    ensures
        final(out)@ == old(out)@ + decimal(n as nat),
    decreases n,
{
    if n >= 10 {
        push_digits(out, n / 10);
    }
    out.push(0x30 + (n % 10) as u8);
    assert(out@ =~= old(out)@ + decimal(n as nat));
}

/// Room for a resolution.
pub const RESOLUTION_SIZE: usize = 20;

/// Where the digits of a number end that start at `start`, in a buffer of 20
/// bytes. A number that is 0 is counted even if there is no room for it.
pub open spec fn digits_end(val: u32, start: int) -> int {
    let end = start + decimal(val as nat).len();
    if val == 0 || end <= RESOLUTION_SIZE {
        end
    } else if start >= RESOLUTION_SIZE {
        start
    } else {
        RESOLUTION_SIZE as int
    }
}

/// Writes the digits of a number into a buffer, as far as there is room. Returns
/// where they end.
pub fn write_u32_to_buf(val: u32, buf: &mut [u8; RESOLUTION_SIZE], start: usize) -> (r: usize)
    requires
        start < usize::MAX,
    ensures
        final(buf)@ == ram::patched(old(buf)@, start as int, decimal(val as nat)),
        r == digits_end(val, start as int),
{
    let d: Vec<u8> = digits(val as u64);
    let mut pos: usize = start;
    let mut i: usize = 0;
    while i < d.len() && pos < RESOLUTION_SIZE
        invariant
            i <= d@.len(),
            d@ == decimal(val as nat),
            start < RESOLUTION_SIZE ==> pos <= RESOLUTION_SIZE,
            start >= RESOLUTION_SIZE ==> i == 0,
            pos == start + i,
            forall|j: int|
                0 <= j < RESOLUTION_SIZE ==> buf@[j] == (if start <= j < pos {
                    d@[j - start]
                } else {
                    old(buf)@[j]
                }),
        decreases d@.len() - i,
    {
        buf[pos] = d[i];
        pos = pos + 1;
        i = i + 1;
    }
    assert(buf@ =~= ram::patched(old(buf)@, start as int, decimal(val as nat)));
    proof {
        law_digits_have_the_value(val as nat);
    }
    if val == 0 {
        return start + 1;
    }
    pos
}

/// The text of a resolution, such as "1024x768", cut to 20 bytes.
pub open spec fn resolution(w: u32, h: u32) -> Seq<u8> {
    let all = decimal(w as nat) + seq![0x78u8] + decimal(h as nat);
    if all.len() <= RESOLUTION_SIZE {
        all
    } else {
        all.subrange(0, RESOLUTION_SIZE as int)
    }
}

/// Writes a resolution into a buffer, and returns it as text.
pub fn format_resolution<'a>(w: u32, h: u32, buf: &'a mut [u8; RESOLUTION_SIZE]) -> (r: &'a str)
    ensures
        r.spec_bytes() == resolution(w, h),
{
    proof {
        lemma_u32_digits(w);
        lemma_u32_digits(h);
        law_digits_have_the_value(w as nat);
        law_digits_have_the_value(h as nat);
    }
    let mut pos: usize = write_u32_to_buf(w, buf, 0);
    buf[pos] = 0x78;
    pos = pos + 1;
    pos = write_u32_to_buf(h, buf, pos);
    let part: &[u8] = vstd::slice::slice_subrange(buf, 0, pos);
    proof {
        assert(part@ =~= resolution(w, h));
        lemma_ascii_is_utf8(part@);
    }
    match text_of(part) {
        Some(s) => s,
        None => "?x?",
    }
}

/// A 32-bit number has at most ten digits.
proof fn lemma_u32_digits(n: u32)
    ensures
        decimal(n as nat).len() <= 10,
{
    reveal_with_fuel(pow10, 11);
    lemma_decimal_len(n as nat, 10, pow10(10));
}

} // verus!
