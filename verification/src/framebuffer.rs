//! Drawing on a linear framebuffer.
//!
//! A colour is 0x00RRGGBB. A pixel is stored with blue first, then green and
//! red; a fourth byte, if there is one, is left alone.

use vstd::prelude::*;
use vstd::string::*;
use crate::multiboot2::FramebufferInfo;

verus! {

/// The geometry of the screen.
#[derive(Debug, Clone, Copy, PartialEq, Eq, Structural)]
pub struct Fb {
    pub addr: u64,
    /// Bytes from one line to the next.
    pub pitch: u32,
    pub width: u32,
    pub height: u32,
    /// Bits of a pixel.
    pub bpp: u8,
}

pub const BLACK: u32 = 0x00000000;

pub const WHITE: u32 = 0x00FFFFFF;

pub const RED: u32 = 0x00FF0000;

pub const GREEN: u32 = 0x0000FF00;

pub const BLUE: u32 = 0x000000FF;

pub const CYAN: u32 = 0x0000FFFF;

pub const MAGENTA: u32 = 0x00FF00FF;

pub const YELLOW: u32 = 0x00FFFF00;

pub const DARK_GRAY: u32 = 0x00404040;

pub const LIGHT_GRAY: u32 = 0x00C0C0C0;

pub const DARK_BLUE: u32 = 0x00000080;

pub const DARK_CYAN: u32 = 0x00008080;

pub const ORANGE: u32 = 0x00FF8000;

/// The background of the dark theme.
pub const BG_DARK: u32 = 0x001E1E2E;

/// The text of the dark theme.
pub const FG_LIGHT: u32 = 0x00CDD6F4;

pub const ACCENT: u32 = 0x0089B4FA;

pub const SURFACE: u32 = 0x00313244;

pub const OVERLAY: u32 = 0x006C7086;

/// Width of a character in pixels.
pub const CHAR_WIDTH: u32 = 8;

/// Height of a character in pixels.
pub const CHAR_HEIGHT: u32 = 16;

/// Bytes of a character in a font: one for each line.
pub const GLYPH_SIZE: usize = 16;

/// The weight of each column in a line of a character, from the left.
pub const COLUMN_WEIGHT: [u8; 8] = [128, 64, 32, 16, 8, 4, 2, 1];

/// The red part of a colour.
pub open spec fn red(c: u32) -> int {
    c as int / 0x1_0000 % 0x100
}

/// The green part of a colour.
pub open spec fn green(c: u32) -> int {
    c as int / 0x100 % 0x100
}

/// The blue part of a colour.
pub open spec fn blue(c: u32) -> int {
    c as int % 0x100
}

/// The colour with the given parts.
pub open spec fn colour(r: int, g: int, b: int) -> u32 {
    (r * 0x1_0000 + g * 0x100 + b) as u32
}

fn red_of(c: u32) -> (r: u8)
    ensures
        r == red(c),
{
    (c / 0x1_0000 % 0x100) as u8
}

fn green_of(c: u32) -> (r: u8)
    ensures
        r == green(c),
{
    (c / 0x100 % 0x100) as u8
}

fn blue_of(c: u32) -> (r: u8)
    ensures
        r == blue(c),
{
    (c % 0x100) as u8
}

/// The colour with the given parts.
pub fn rgb(r: u8, g: u8, b: u8) -> (c: u32)
    ensures
        c == colour(r as int, g as int, b as int),
        c == r * 0x1_0000 + g * 0x100 + b,
{
    r as u32 * 0x1_0000 + g as u32 * 0x100 + b as u32
}

/// A colour gives back the parts it was made of.
pub proof fn law_colour_gives_back_its_parts(r: u8, g: u8, b: u8)
    ensures
        red(colour(r as int, g as int, b as int)) == r,
        green(colour(r as int, g as int, b as int)) == g,
        blue(colour(r as int, g as int, b as int)) == b,
{
}

/// `x` is between `a` and `b`, whichever is the smaller.
pub open spec fn lies_between(a: int, x: int, b: int) -> bool {
    a <= x <= b || b <= x <= a
}

/// A colour is made of its parts, and has the parts that it is made of.
proof fn lemma_parts(c: u32, r: int, g: int, b: int)
    requires
        0 <= r <= 255,
        0 <= g <= 255,
        0 <= b <= 255,
    ensures
        c < 0x100_0000 ==> colour(red(c), green(c), blue(c)) == c,
        red(colour(r, g, b)) == r,
        green(colour(r, g, b)) == g,
        blue(colour(r, g, b)) == b,
{
}

/// A mix of two parts: `alpha` of 255 of the second.
#[verifier::opaque]
pub open spec fn mixed(a: int, b: int, alpha: int) -> int {
    (a * (255 - alpha) + b * alpha) / 255
}

/// A mix of two parts. See `mixed`.
fn mix(a: u8, b: u8, alpha: u8) -> (r: u8)
    ensures
        r == mixed(a as int, b as int, alpha as int),
{
    proof {
        reveal(mixed);
        lemma_mixed(a as int, b as int, alpha as int);
    }
    let keep: u32 = 255 - alpha as u32;
    let first: u32 = a as u32 * keep;
    let second: u32 = b as u32 * alpha as u32;
    ((first + second) / 255) as u8
}

pub proof fn lemma_mixed(a: int, b: int, alpha: int)
    requires
        0 <= a <= 255,
        0 <= b <= 255,
        0 <= alpha <= 255,
    ensures
        0 <= a * (255 - alpha) <= 255 * 255,
        0 <= b * alpha <= 255 * 255,
        a <= b ==> a <= mixed(a, b, alpha) <= b,
        b <= a ==> b <= mixed(a, b, alpha) <= a,
        0 <= mixed(a, b, alpha) <= 255,
        alpha == 0 ==> mixed(a, b, alpha) == a,
        alpha == 255 ==> mixed(a, b, alpha) == b,
{
    reveal(mixed);
    assert(0 <= a * (255 - alpha) <= 255 * 255) by (nonlinear_arith)
        requires
            0 <= a <= 255,
            0 <= alpha <= 255,
    ;
    assert(0 <= b * alpha <= 255 * 255) by (nonlinear_arith)
        requires
            0 <= b <= 255,
            0 <= alpha <= 255,
    ;
    let s = a * (255 - alpha) + b * alpha;
    assert(a <= b ==> 255 * a <= s <= 255 * b) by (nonlinear_arith)
        requires
            s == a * (255 - alpha) + b * alpha,
            0 <= alpha <= 255,
    ;
    assert(b <= a ==> 255 * b <= s <= 255 * a) by (nonlinear_arith)
        requires
            s == a * (255 - alpha) + b * alpha,
            0 <= alpha <= 255,
    ;
    assert(alpha == 0 ==> s == 255 * a) by (nonlinear_arith)
        requires
            s == a * (255 - alpha) + b * alpha,
    ;
    assert(alpha == 255 ==> s == 255 * b) by (nonlinear_arith)
        requires
            s == a * (255 - alpha) + b * alpha,
    ;
}

/// A mix of two colours, part by part. See `blend`.
pub open spec fn blended(c1: u32, c2: u32, alpha: u8) -> u32 {
    colour(
        mixed(red(c1), red(c2), alpha as int),
        mixed(green(c1), green(c2), alpha as int),
        mixed(blue(c1), blue(c2), alpha as int),
    )
}

/// A mix of two colours: the first one where `alpha` is 0, the second one where
/// it is 255.
pub fn blend(c1: u32, c2: u32, alpha: u8) -> (r: u32)
    ensures
        r == blended(c1, c2, alpha),
{
    let r: u8 = mix(red_of(c1), red_of(c2), alpha);
    let g: u8 = mix(green_of(c1), green_of(c2), alpha);
    let b: u8 = mix(blue_of(c1), blue_of(c2), alpha);
    rgb(r, g, b)
}

/// A mix lies between the two colours in each part, and is one of them at the
/// ends.
pub proof fn law_blend_lies_between(c1: u32, c2: u32, alpha: u8)
    requires
        c1 < 0x100_0000,
        c2 < 0x100_0000,
    ensures
        blended(c1, c2, 0) == c1,
        blended(c1, c2, 255) == c2,
        lies_between(red(c1), red(blended(c1, c2, alpha)), red(c2)),
        lies_between(green(c1), green(blended(c1, c2, alpha)), green(c2)),
        lies_between(blue(c1), blue(blended(c1, c2, alpha)), blue(c2)),
{
    lemma_mixed(red(c1), red(c2), alpha as int);
    lemma_mixed(green(c1), green(c2), alpha as int);
    lemma_mixed(blue(c1), blue(c2), alpha as int);
    lemma_mixed(red(c1), red(c2), 0);
    lemma_mixed(green(c1), green(c2), 0);
    lemma_mixed(blue(c1), blue(c2), 0);
    lemma_mixed(red(c1), red(c2), 255);
    lemma_mixed(green(c1), green(c2), 255);
    lemma_mixed(blue(c1), blue(c2), 255);
    lemma_parts(
        c1,
        mixed(red(c1), red(c2), alpha as int),
        mixed(green(c1), green(c2), alpha as int),
        mixed(blue(c1), blue(c2), alpha as int),
    );
    lemma_parts(c2, 0, 0, 0);
}

impl Fb {
    /// Bytes of a pixel.
    pub open spec fn pixel_size(self) -> int {
        self.bpp as int / 8
    }

    /// Where the pixel in column `x` of line `y` starts.
    pub open spec fn offset(self, x: int, y: int) -> int {
        y * self.pitch + x * self.pixel_size()
    }

    /// Every pixel lies in a memory of `len` bytes, and its place fits 32 bits.
    pub open spec fn fits(self, len: int) -> bool {
        self.width > 0 && self.height > 0 ==> self.offset(self.width - 1, self.height - 1) + 3
            <= len && self.offset(self.width - 1, self.height - 1) <= u32::MAX
    }

    /// Whether every pixel lies in a memory of `len` bytes. See `fits`.
    pub fn fits_in(&self, len: usize) -> (r: bool)
        ensures
            r == self.fits(len as int),
    {
        if self.width == 0 || self.height == 0 {
            return true;
        }
        proof {
            lemma_offset(*self, self.width - 1, self.height - 1);
            lemma_products(self.width - 1, self.height - 1, self.pitch as int, self.pixel_size());
        }
        let line: u64 = (self.height - 1) as u64 * self.pitch as u64;
        let place: u64 = (self.width - 1) as u64 * (self.bpp as u64 / 8);
        if line > u32::MAX as u64 || place > u32::MAX as u64 {
            return false;
        }
        let last: u64 = line + place;
        last <= u32::MAX as u64 && last + 3 <= len as u64
    }

    /// Pixels do not overlap.
    pub open spec fn regular(self) -> bool {
        self.pixel_size() >= 3 && self.width * self.pixel_size() <= self.pitch
    }
}

proof fn lemma_products(w: int, h: int, pitch: int, size: int)
    by (nonlinear_arith)
    requires
        0 <= w <= u32::MAX,
        0 <= h <= u32::MAX,
        0 <= pitch <= u32::MAX,
        0 <= size <= 31,
    ensures
        0 <= h * pitch <= u64::MAX,
        0 <= w * size <= u64::MAX,
{
}

pub proof fn lemma_offset(fb: Fb, x: int, y: int)
    requires
        0 <= x < fb.width,
        0 <= y < fb.height,
    ensures
        0 <= y * fb.pitch,
        0 <= x * fb.pixel_size(),
        fb.offset(x, y) <= fb.offset(fb.width - 1, fb.height - 1),
{
    assert(0 <= y * fb.pitch <= (fb.height - 1) * fb.pitch) by (nonlinear_arith)
        requires
            0 <= y <= fb.height - 1,
            0 <= fb.pitch,
    ;
    let p = fb.pixel_size();
    assert(0 <= x * p <= (fb.width - 1) * p) by (nonlinear_arith)
        requires
            0 <= x <= fb.width - 1,
            0 <= p,
    ;
}

/// The screen with a pixel set.
pub open spec fn put(s: Seq<u8>, fb: Fb, x: int, y: int, c: u32) -> Seq<u8> {
    let o = fb.offset(x, y);
    s.update(o, blue(c) as u8).update(o + 1, green(c) as u8).update(o + 2, red(c) as u8)
}

/// Sets a pixel that is on the screen.
fn put_at(fb: &Fb, screen: &mut [u8], x: u32, y: u32, c: u32)
    requires
        fb.fits(old(screen)@.len() as int),
        x < fb.width,
        y < fb.height,
    ensures
        final(screen)@.len() == old(screen)@.len(),
        final(screen)@ == put(old(screen)@, *fb, x as int, y as int, c),
{
    proof {
        lemma_offset(*fb, x as int, y as int);
    }
    let line: u32 = y * fb.pitch;
    let size: u32 = fb.bpp as u32 / 8;
    let place: u32 = x * size;
    let o: usize = (line + place) as usize;
    screen[o] = blue_of(c);
    screen[o + 1] = green_of(c);
    screen[o + 2] = red_of(c);
}

/// What an area is painted with.
#[derive(Clone, Copy)]
pub enum Paint {
    /// One colour.
    Solid(u32),
    /// From the first colour in column `from` to the second one `len` columns on.
    Across { from: u32, len: u32, first: u32, last: u32 },
    /// From the first colour in line `from` to the second one `len` lines on.
    Down { from: u32, len: u32, first: u32, last: u32 },
    /// A character at `(x, y)`: one colour where its bits are set, another one,
    /// or none, elsewhere.
    Glyph { x: u32, y: u32, rows: [u8; GLYPH_SIZE], fg: u32, bg: Option<u32> },
}

/// A part of a colour `t` steps of `n` on the way from `a` to `b`, rounded
/// towards `a`.
#[verifier::opaque]
pub open spec fn between(a: int, b: int, t: int, n: int) -> int {
    if b >= a {
        a + (b - a) * t / n
    } else {
        a - (a - b) * t / n
    }
}

/// A colour `t` steps of `n` on the way from `first` to `last`.
pub open spec fn shade(first: u32, last: u32, t: int, n: int) -> u32 {
    colour(
        between(red(first), red(last), t, n),
        between(green(first), green(last), t, n),
        between(blue(first), blue(last), t, n),
    )
}

pub proof fn lemma_between(a: int, b: int, t: int, n: int)
    requires
        0 <= a <= 255,
        0 <= b <= 255,
        0 <= t < n,
    ensures
        0 <= (b - a) * t || b < a,
        0 <= (a - b) * t || a < b,
        b >= a ==> 0 <= (b - a) * t <= 255 * t,
        a >= b ==> 0 <= (a - b) * t <= 255 * t,
        b >= a ==> 0 <= (b - a) * t / n <= b - a,
        a >= b ==> 0 <= (a - b) * t / n <= a - b,
        t == 0 ==> between(a, b, t, n) == a,
        a <= b ==> a <= between(a, b, t, n) <= b,
        b <= a ==> b <= between(a, b, t, n) <= a,
{
    reveal(between);
    if b >= a {
        lemma_part(b - a, t, n);
    }
    if a >= b {
        lemma_part(a - b, t, n);
    }
}

proof fn lemma_part(d: int, t: int, n: int)
    by (nonlinear_arith)
    requires
        0 <= d <= 255,
        0 <= t < n,
    ensures
        0 <= d * t <= 255 * t,
        0 <= d * t / n <= d,
        t == 0 ==> d * t / n == 0,
{
}

/// A part of a colour on the way from one to another. See `between`.
fn step_between(a: u8, b: u8, t: u32, n: u32) -> (r: u8)
    requires
        t < n,
    ensures
        r == between(a as int, b as int, t as int, n as int),
{
    proof {
        reveal(between);
        lemma_between(a as int, b as int, t as int, n as int);
    }
    if b >= a {
        let d: u64 = (b - a) as u64 * t as u64;
        a + (d / n as u64) as u8
    } else {
        let d: u64 = (a - b) as u64 * t as u64;
        a - (d / n as u64) as u8
    }
}

/// A colour on the way from one to another. See `shade`.
fn shade_of(first: u32, last: u32, t: u32, n: u32) -> (r: u32)
    requires
        t < n,
    ensures
        r == shade(first, last, t as int, n as int),
{
    let r: u8 = step_between(red_of(first), red_of(last), t, n);
    let g: u8 = step_between(green_of(first), green_of(last), t, n);
    let b: u8 = step_between(blue_of(first), blue_of(last), t, n);
    rgb(r, g, b)
}

/// A gradient starts with its first colour, and each part of it stays between
/// those of the two colours.
pub proof fn law_gradient_stays_between_its_colours(first: u32, last: u32, t: int, n: int)
    requires
        first < 0x100_0000,
        0 <= t < n,
    ensures
        shade(first, last, 0, n) == first,
        lies_between(red(first), red(shade(first, last, t, n)), red(last)),
        lies_between(green(first), green(shade(first, last, t, n)), green(last)),
        lies_between(blue(first), blue(shade(first, last, t, n)), blue(last)),
{
    lemma_between(red(first), red(last), t, n);
    lemma_between(green(first), green(last), t, n);
    lemma_between(blue(first), blue(last), t, n);
    lemma_between(red(first), red(last), 0, n);
    lemma_between(green(first), green(last), 0, n);
    lemma_between(blue(first), blue(last), 0, n);
    lemma_parts(
        first,
        between(red(first), red(last), t, n),
        between(green(first), green(last), t, n),
        between(blue(first), blue(last), t, n),
    );
}

impl Paint {
    /// The colour of the pixel in column `x` of line `y`, `None` if it is left as
    /// it is.
    pub open spec fn at(self, x: int, y: int) -> Option<u32> {
        match self {
            Paint::Solid(c) => Some(c),
            Paint::Across { from, len, first, last } => Some(
                shade(first, last, x - from, len as int),
            ),
            Paint::Down { from, len, first, last } => Some(
                shade(first, last, y - from, len as int),
            ),
            Paint::Glyph { x: gx, y: gy, rows, fg, bg } => {
                if rows@[y - gy] as int / COLUMN_WEIGHT@[x - gx] as int % 2 == 1 {
                    Some(fg)
                } else {
                    bg
                }
            },
        }
    }

    /// The paint covers an area.
    pub open spec fn covers(self, x: int, y: int, w: int, h: int) -> bool {
        match self {
            Paint::Solid(_) => true,
            Paint::Across { from, len, .. } => from <= x && x + w <= from + len,
            Paint::Down { from, len, .. } => from <= y && y + h <= from + len,
            Paint::Glyph { x: gx, y: gy, .. } => gx <= x && x + w <= gx + 8 && gy <= y && y + h
                <= gy + 16,
        }
    }

    /// The colour of a pixel. See `at`.
    fn pick(&self, x: u32, y: u32) -> (r: Option<u32>)
        requires
            self.covers(x as int, y as int, 1, 1),
        ensures
            r == self.at(x as int, y as int),
    {
        match *self {
            Paint::Solid(c) => Some(c),
            Paint::Across { from, len, first, last } => Some(shade_of(first, last, x - from, len)),
            Paint::Down { from, len, first, last } => Some(shade_of(first, last, y - from, len)),
            Paint::Glyph { x: gx, y: gy, rows, fg, bg } => {
                let weights: [u8; 8] = COLUMN_WEIGHT;
                let row: u8 = rows[(y - gy) as usize];
                let weight: u8 = weights[(x - gx) as usize];
                proof {
                    lemma_weights((x - gx) as int);
                }
                if row / weight % 2 == 1 {
                    Some(fg)
                } else {
                    bg
                }
            },
        }
    }
}

proof fn lemma_weights(i: int)
    requires
        0 <= i < 8,
    ensures
        COLUMN_WEIGHT@[i] > 0,
{
}

/// The screen with a pixel set, if it is to be set.
pub open spec fn touched(s: Seq<u8>, fb: Fb, x: int, y: int, p: Paint) -> Seq<u8> {
    match p.at(x, y) {
        Some(c) => put(s, fb, x, y, c),
        None => s,
    }
}

/// The screen with `n` pixels of a line painted, from left to right.
pub open spec fn line(s: Seq<u8>, fb: Fb, x: int, y: int, n: int, p: Paint) -> Seq<u8>
    decreases n,
{
    if n <= 0 {
        s
    } else {
        touched(line(s, fb, x, y, n - 1, p), fb, x + n - 1, y, p)
    }
}

/// The screen with an area of `w` columns and `h` lines painted, line by line.
pub open spec fn area(s: Seq<u8>, fb: Fb, x: int, y: int, w: int, h: int, p: Paint) -> Seq<u8>
    decreases h,
{
    if h <= 0 {
        s
    } else {
        line(area(s, fb, x, y, w, h - 1, p), fb, x, y + h - 1, w, p)
    }
}

/// Paints an area that is on the screen.
fn paint_area(fb: &Fb, screen: &mut [u8], x: u32, y: u32, w: u32, h: u32, p: &Paint)
    requires
        fb.fits(old(screen)@.len() as int),
        x + w <= fb.width || w == 0,
        y + h <= fb.height || h == 0,
        p.covers(x as int, y as int, w as int, h as int),
    ensures
        final(screen)@.len() == old(screen)@.len(),
        final(screen)@ == area(
            old(screen)@,
            *fb,
            x as int,
            y as int,
            w as int,
            h as int,
            *p,
        ),
{
    let mut j: u32 = 0;
    while j < h
        invariant
            j <= h,
            screen@.len() == old(screen)@.len(),
            fb.fits(screen@.len() as int),
            x + w <= fb.width || w == 0,
            y + h <= fb.height || h == 0,
            p.covers(x as int, y as int, w as int, h as int),
            screen@ == area(old(screen)@, *fb, x as int, y as int, w as int, j as int, *p),
        decreases h - j,
    {
        let ghost above = screen@;
        let mut i: u32 = 0;
        while i < w
            invariant
                i <= w,
                j < h,
                screen@.len() == old(screen)@.len(),
                fb.fits(screen@.len() as int),
                x + w <= fb.width || w == 0,
                y + h <= fb.height || h == 0,
                p.covers(x as int, y as int, w as int, h as int),
                screen@ == line(above, *fb, x as int, y + j, i as int, *p),
            decreases w - i,
        {
            match p.pick(x + i, y + j) {
                Some(c) => {
                    put_at(fb, screen, x + i, y + j, c);
                },
                None => {},
            }
            i = i + 1;
        }
        j = j + 1;
    }
}

/// How much of a span of `n` from `from` on lies below `limit`.
pub open spec fn clipped(from: int, n: int, limit: int) -> int {
    if from >= limit {
        0
    } else if from + n <= limit {
        n
    } else {
        limit - from
    }
}

/// How much of a span lies below a limit. See `clipped`.
fn clip(from: u32, n: u32, limit: u32) -> (r: u32)
    ensures
        r == clipped(from as int, n as int, limit as int),
{
    if from >= limit {
        0
    } else if n <= limit - from {
        n
    } else {
        limit - from
    }
}

/// The screen with the part of a rectangle that is on it painted.
pub open spec fn painted(
    s: Seq<u8>,
    fb: Option<Fb>,
    x: int,
    y: int,
    w: int,
    h: int,
    p: Paint,
) -> Seq<u8> {
    match fb {
        Some(b) => area(
            s,
            b,
            x,
            y,
            clipped(x, w, b.width as int),
            clipped(y, h, b.height as int),
            p,
        ),
        None => s,
    }
}

/// The screen has room for every pixel, if there is one.
pub open spec fn has_room(fb: Option<Fb>, s: Seq<u8>) -> bool {
    fb matches Some(b) ==> b.fits(s.len() as int)
}

/// Takes the geometry of the screen over.
pub fn init(fb: &mut Option<Fb>, info: &FramebufferInfo)
    ensures
        *final(fb) == Some(
            Fb {
                addr: info.addr,
                pitch: info.pitch,
                width: info.width,
                height: info.height,
                bpp: info.bpp,
            },
        ),
{
    *fb = Some(
        Fb {
            addr: info.addr,
            pitch: info.pitch,
            width: info.width,
            height: info.height,
            bpp: info.bpp,
        },
    );
}

/// The geometry of the screen, if there is one and every pixel of it lies in a
/// memory of `len` bytes.
pub fn geometry_within(fb: &Option<Fb>, len: usize) -> (r: Option<Fb>)
    ensures
        r == (match *fb {
            Some(b) => if b.fits(len as int) {
                Some(b)
            } else {
                None
            },
            None => None,
        }),
{
    match fb {
        Some(b) => {
            if b.fits_in(len) {
                Some(*b)
            } else {
                None
            }
        },
        None => None,
    }
}

/// Whether there is a screen.
pub fn is_available(fb: &Option<Fb>) -> (r: bool)
    ensures
        r == (fb is Some),
{
    fb.is_some()
}

/// The width of the screen in pixels, 0 without a screen.
pub fn width(fb: &Option<Fb>) -> (r: u32)
    ensures
        r == (match *fb {
            Some(b) => b.width,
            None => 0,
        }),
{
    match fb {
        Some(b) => b.width,
        None => 0,
    }
}

/// The height of the screen in pixels, 0 without a screen.
pub fn height(fb: &Option<Fb>) -> (r: u32)
    ensures
        r == (match *fb {
            Some(b) => b.height,
            None => 0,
        }),
{
    match fb {
        Some(b) => b.height,
        None => 0,
    }
}

/// Sets a pixel. One that is not on the screen is passed over.
pub fn put_pixel(fb: &Option<Fb>, screen: &mut [u8], x: u32, y: u32, color: u32)
    requires
        has_room(*fb, old(screen)@),
    ensures
        final(screen)@ == (if fb is Some && x < fb->0.width && y < fb->0.height {
            put(old(screen)@, fb->0, x as int, y as int, color)
        } else {
            old(screen)@
        }),
{
    match fb {
        Some(b) => {
            if x >= b.width || y >= b.height {
                return;
            }
            put_at(b, screen, x, y, color);
        },
        None => {},
    }
}

/// Fills the whole screen.
pub fn clear(fb: &Option<Fb>, screen: &mut [u8], color: u32)
    requires
        has_room(*fb, old(screen)@),
    ensures
        final(screen)@.len() == old(screen)@.len(),
        final(screen)@ == (match *fb {
            Some(b) => area(
                old(screen)@,
                b,
                0,
                0,
                b.width as int,
                b.height as int,
                Paint::Solid(color),
            ),
            None => old(screen)@,
        }),
{
    match fb {
        Some(b) => {
            paint_area(b, screen, 0, 0, b.width, b.height, &Paint::Solid(color));
        },
        None => {},
    }
}

/// Fills a rectangle.
pub fn fill_rect(fb: &Option<Fb>, screen: &mut [u8], x: u32, y: u32, w: u32, h: u32, color: u32)
    requires
        has_room(*fb, old(screen)@),
        fb is Some ==> x + w <= u32::MAX && y + h <= u32::MAX,
    ensures
        final(screen)@.len() == old(screen)@.len(),
        final(screen)@ == painted(
            old(screen)@,
            *fb,
            x as int,
            y as int,
            w as int,
            h as int,
            Paint::Solid(color),
        ),
{
    match fb {
        Some(b) => {
            let cw: u32 = clip(x, w, b.width);
            let ch: u32 = clip(y, h, b.height);
            paint_area(b, screen, x, y, cw, ch, &Paint::Solid(color));
        },
        None => {},
    }
}

/// The screen with the frame of a rectangle drawn: lines of the given thickness
/// at the top and the bottom, and at the left and the right between them.
pub open spec fn framed(
    s: Seq<u8>,
    fb: Option<Fb>,
    x: int,
    y: int,
    w: int,
    h: int,
    color: u32,
    t: int,
) -> Seq<u8> {
    let p = Paint::Solid(color);
    let side = if h >= 2 * t {
        h - 2 * t
    } else {
        0
    };
    let s1 = painted(s, fb, x, y, w, t, p);
    let s2 = if h > t {
        painted(s1, fb, x, y + h - t, w, t, p)
    } else {
        s1
    };
    let s3 = painted(s2, fb, x, y + t, t, side, p);
    if w == 0 || h == 0 {
        s
    } else if w > t {
        painted(s3, fb, x + w - t, y + t, t, side, p)
    } else {
        s3
    }
}

/// Draws the frame of a rectangle. See `framed`.
pub fn draw_rect(
    fb: &Option<Fb>,
    screen: &mut [u8],
    x: u32,
    y: u32,
    w: u32,
    h: u32,
    color: u32,
    thickness: u32,
)
    requires
        has_room(*fb, old(screen)@),
        w > 0 && h > 0 ==> {
            &&& y + thickness <= u32::MAX
            &&& 2 * thickness <= u32::MAX
            &&& h > thickness ==> y + h <= u32::MAX
            &&& w > thickness || fb is Some ==> x + w <= u32::MAX
            &&& fb is Some ==> x + thickness <= u32::MAX
        },
    ensures
        final(screen)@.len() == old(screen)@.len(),
        final(screen)@ == framed(
            old(screen)@,
            *fb,
            x as int,
            y as int,
            w as int,
            h as int,
            color,
            thickness as int,
        ),
{
    if w == 0 || h == 0 {
        return;
    }
    let t: u32 = thickness;
    let side: u32 = if h >= t * 2 {
        h - t * 2
    } else {
        0
    };
    fill_rect(fb, screen, x, y, w, t, color);
    if h > t {
        fill_rect(fb, screen, x, y + h - t, w, t, color);
    }
    fill_rect(fb, screen, x, y + t, t, side, color);
    if w > t {
        fill_rect(fb, screen, x + w - t, y + t, t, side, color);
    }
}

/// Draws a line to the right.
pub fn draw_hline(fb: &Option<Fb>, screen: &mut [u8], x: u32, y: u32, length: u32, color: u32)
    requires
        has_room(*fb, old(screen)@),
        fb is Some ==> x + length <= u32::MAX && y < u32::MAX,
    ensures
        final(screen)@.len() == old(screen)@.len(),
        final(screen)@ == painted(
            old(screen)@,
            *fb,
            x as int,
            y as int,
            length as int,
            1,
            Paint::Solid(color),
        ),
{
    fill_rect(fb, screen, x, y, length, 1, color);
}

/// Draws a line downwards.
pub fn draw_vline(fb: &Option<Fb>, screen: &mut [u8], x: u32, y: u32, length: u32, color: u32)
    requires
        has_room(*fb, old(screen)@),
        fb is Some ==> x < u32::MAX && y + length <= u32::MAX,
    ensures
        final(screen)@.len() == old(screen)@.len(),
        final(screen)@ == painted(
            old(screen)@,
            *fb,
            x as int,
            y as int,
            1,
            length as int,
            Paint::Solid(color),
        ),
{
    fill_rect(fb, screen, x, y, 1, length, color);
}

/// Fills a rectangle from one colour on the left to another one on the right.
pub fn fill_gradient_h(
    fb: &Option<Fb>,
    screen: &mut [u8],
    x: u32,
    y: u32,
    w: u32,
    h: u32,
    color_left: u32,
    color_right: u32,
)
    requires
        has_room(*fb, old(screen)@),
        fb is Some && w > 0 ==> x + w <= u32::MAX && y + h <= u32::MAX,
    ensures
        final(screen)@.len() == old(screen)@.len(),
        final(screen)@ == (if w == 0 {
            old(screen)@
        } else {
            painted(
                old(screen)@,
                *fb,
                x as int,
                y as int,
                w as int,
                h as int,
                Paint::Across { from: x, len: w, first: color_left, last: color_right },
            )
        }),
{
    if w == 0 {
        return;
    }
    match fb {
        Some(b) => {
            let cw: u32 = clip(x, w, b.width);
            let ch: u32 = clip(y, h, b.height);
            let p = Paint::Across { from: x, len: w, first: color_left, last: color_right };
            paint_area(b, screen, x, y, cw, ch, &p);
        },
        None => {},
    }
}

/// Fills a rectangle from one colour at the top to another one at the bottom.
pub fn fill_gradient_v(
    fb: &Option<Fb>,
    screen: &mut [u8],
    x: u32,
    y: u32,
    w: u32,
    h: u32,
    color_top: u32,
    color_bottom: u32,
)
    requires
        has_room(*fb, old(screen)@),
        fb is Some && h > 0 ==> x + w <= u32::MAX && y + h <= u32::MAX,
    ensures
        final(screen)@.len() == old(screen)@.len(),
        final(screen)@ == (if h == 0 {
            old(screen)@
        } else {
            painted(
                old(screen)@,
                *fb,
                x as int,
                y as int,
                w as int,
                h as int,
                Paint::Down { from: y, len: h, first: color_top, last: color_bottom },
            )
        }),
{
    if h == 0 {
        return;
    }
    match fb {
        Some(b) => {
            let cw: u32 = clip(x, w, b.width);
            let ch: u32 = clip(y, h, b.height);
            let p = Paint::Down { from: y, len: h, first: color_top, last: color_bottom };
            paint_area(b, screen, x, y, cw, ch, &p);
        },
        None => {},
    }
}

/// The place of a character in a font. A font starts with the blank; characters
/// that it cannot have are shown as a blank.
pub open spec fn glyph_index(ch: u8) -> int {
    if 32 <= ch < 128 {
        ch - 32
    } else {
        0
    }
}

/// The array that holds some bytes.
pub open spec fn rows_of(s: Seq<u8>) -> [u8; GLYPH_SIZE] {
    choose|a: [u8; GLYPH_SIZE]| a@ == s
}

/// There is an array for every sequence of that length.
pub proof fn lemma_rows(s: Seq<u8>)
    requires
        s.len() == GLYPH_SIZE,
    ensures
        rows_of(s)@ == s,
{
    let a: [u8; GLYPH_SIZE] = [
        s[0], s[1], s[2], s[3], s[4], s[5], s[6], s[7],
        s[8], s[9], s[10], s[11], s[12], s[13], s[14], s[15],
    ];
    assert(a@ =~= s);
}

/// The lines of a character in a font, if the font has them.
pub open spec fn glyph(font: Seq<u8>, ch: u8) -> Option<[u8; GLYPH_SIZE]> {
    let o = glyph_index(ch) * GLYPH_SIZE;
    if o + GLYPH_SIZE <= font.len() {
        Some(rows_of(font.subrange(o, o + GLYPH_SIZE)))
    } else {
        None
    }
}

/// The lines of a character in a font. See `glyph`.
fn find_glyph(font: &[u8], ch: u8) -> (r: Option<[u8; GLYPH_SIZE]>)
    ensures
        r == glyph(font@, ch),
{
    let idx: usize = if ch >= 32 && ch < 128 {
        (ch - 32) as usize
    } else {
        0
    };
    let o: usize = idx * GLYPH_SIZE;
    if o + GLYPH_SIZE > font.len() {
        return None;
    }
    let mut rows: [u8; GLYPH_SIZE] = [0u8; GLYPH_SIZE];
    let mut i: usize = 0;
    while i < GLYPH_SIZE
        invariant
            i <= GLYPH_SIZE,
            o + GLYPH_SIZE <= font.len(),
            forall|j: int| 0 <= j < i ==> rows@[j] == font@[o + j],
        decreases GLYPH_SIZE - i,
    {
        rows[i] = font[o + i];
        i = i + 1;
    }
    proof {
        let part = font@.subrange(o as int, o + GLYPH_SIZE);
        assert(rows@ =~= part);
        assert(rows_of(part)@ == part);
        assert(rows_of(part) =~= rows);
    }
    Some(rows)
}

/// The screen with a character drawn, on a background or without one.
pub open spec fn char_drawn(
    s: Seq<u8>,
    fb: Option<Fb>,
    font: Seq<u8>,
    x: u32,
    y: u32,
    ch: u8,
    fg: u32,
    bg: Option<u32>,
) -> Seq<u8> {
    match glyph(font, ch) {
        Some(rows) => painted(
            s,
            fb,
            x as int,
            y as int,
            CHAR_WIDTH as int,
            CHAR_HEIGHT as int,
            Paint::Glyph { x, y, rows, fg, bg },
        ),
        None => s,
    }
}

/// Draws a character, on a background or without one.
fn draw_glyph(
    fb: &Option<Fb>,
    screen: &mut [u8],
    font: &[u8],
    x: u32,
    y: u32,
    ch: u8,
    fg: u32,
    bg: Option<u32>,
)
    requires
        has_room(*fb, old(screen)@),
    ensures
        final(screen)@.len() == old(screen)@.len(),
        final(screen)@ == char_drawn(old(screen)@, *fb, font@, x, y, ch, fg, bg),
{
    match fb {
        Some(b) => {
            match find_glyph(font, ch) {
                Some(rows) => {
                    let cw: u32 = clip(x, CHAR_WIDTH, b.width);
                    let chh: u32 = clip(y, CHAR_HEIGHT, b.height);
                    paint_area(b, screen, x, y, cw, chh, &Paint::Glyph { x, y, rows, fg, bg });
                },
                None => {},
            }
        },
        None => {},
    }
}

/// Draws a character of a font on a background.
pub fn draw_char(
    fb: &Option<Fb>,
    screen: &mut [u8],
    font: &[u8],
    x: u32,
    y: u32,
    ch: u8,
    fg: u32,
    bg: u32,
)
    requires
        has_room(*fb, old(screen)@),
    ensures
        final(screen)@.len() == old(screen)@.len(),
        final(screen)@ == char_drawn(old(screen)@, *fb, font@, x, y, ch, fg, Some(bg)),
{
    draw_glyph(fb, screen, font, x, y, ch, fg, Some(bg));
}

/// Draws a character of a font, and leaves the rest of the screen as it is.
pub fn draw_char_transparent(
    fb: &Option<Fb>,
    screen: &mut [u8],
    font: &[u8],
    x: u32,
    y: u32,
    ch: u8,
    fg: u32,
)
    requires
        has_room(*fb, old(screen)@),
    ensures
        final(screen)@.len() == old(screen)@.len(),
        final(screen)@ == char_drawn(old(screen)@, *fb, font@, x, y, ch, fg, None),
{
    draw_glyph(fb, screen, font, x, y, ch, fg, None);
}

/// How many of the first `n` bytes are drawn: all but line breaks.
pub open spec fn drawn_count(text: Seq<u8>, n: int) -> int {
    crate::search::count(n as nat, |i: int| text[i] != 0x0A) as int
}

/// The screen with the first `n` bytes of a text drawn, one beside the other.
/// Line breaks are passed over.
pub open spec fn text_drawn(
    s: Seq<u8>,
    fb: Option<Fb>,
    font: Seq<u8>,
    x: int,
    y: u32,
    text: Seq<u8>,
    n: int,
    fg: u32,
    bg: Option<u32>,
) -> Seq<u8>
    decreases n,
{
    if n <= 0 {
        s
    } else {
        let before = text_drawn(s, fb, font, x, y, text, n - 1, fg, bg);
        if text[n - 1] == 0x0A {
            before
        } else {
            let cx = x + CHAR_WIDTH * drawn_count(text, n - 1);
            char_drawn(before, fb, font, cx as u32, y, text[n - 1], fg, bg)
        }
    }
}

/// Draws a text, on a background or without one.
fn draw_text(
    fb: &Option<Fb>,
    screen: &mut [u8],
    font: &[u8],
    x: u32,
    y: u32,
    text: &[u8],
    fg: u32,
    bg: Option<u32>,
)
    requires
        has_room(*fb, old(screen)@),
        x + CHAR_WIDTH * drawn_count(text@, text@.len() as int) <= u32::MAX,
    ensures
        final(screen)@.len() == old(screen)@.len(),
        final(screen)@ == text_drawn(
            old(screen)@,
            *fb,
            font@,
            x as int,
            y,
            text@,
            text@.len() as int,
            fg,
            bg,
        ),
{
    let mut cx: u32 = x;
    let mut i: usize = 0;
    while i < text.len()
        invariant
            i <= text@.len(),
            screen@.len() == old(screen)@.len(),
            has_room(*fb, screen@),
            x + CHAR_WIDTH * drawn_count(text@, text@.len() as int) <= u32::MAX,
            cx == x + CHAR_WIDTH * drawn_count(text@, i as int),
            screen@ == text_drawn(
                old(screen)@,
                *fb,
                font@,
                x as int,
                y,
                text@,
                i as int,
                fg,
                bg,
            ),
        decreases text@.len() - i,
    {
        let ch: u8 = text[i];
        if ch != 0x0A {
            proof {
                lemma_drawn_count(text@, i + 1);
            }
            draw_glyph(fb, screen, font, cx, y, ch, fg, bg);
            cx = cx + CHAR_WIDTH;
        }
        i = i + 1;
    }
}

/// A longer part of a text has no fewer characters.
proof fn lemma_drawn_count(text: Seq<u8>, n: int)
    requires
        0 <= n <= text.len(),
    ensures
        drawn_count(text, n) <= drawn_count(text, text.len() as int),
    decreases text.len() - n,
{
    if n < text.len() {
        lemma_drawn_count(text, n + 1);
    }
}

/// Draws a text on a background.
pub fn draw_string(
    fb: &Option<Fb>,
    screen: &mut [u8],
    font: &[u8],
    x: u32,
    y: u32,
    s: &str,
    fg: u32,
    bg: u32,
)
    requires
        has_room(*fb, old(screen)@),
        x + CHAR_WIDTH * drawn_count(s.spec_bytes(), s.spec_bytes().len() as int) <= u32::MAX,
    ensures
        final(screen)@.len() == old(screen)@.len(),
        final(screen)@ == text_drawn(
            old(screen)@,
            *fb,
            font@,
            x as int,
            y,
            s.spec_bytes(),
            s.spec_bytes().len() as int,
            fg,
            Some(bg),
        ),
{
    draw_text(fb, screen, font, x, y, s.as_bytes(), fg, Some(bg));
}

/// Draws a text, and leaves the rest of the screen as it is.
pub fn draw_string_transparent(
    fb: &Option<Fb>,
    screen: &mut [u8],
    font: &[u8],
    x: u32,
    y: u32,
    s: &str,
    fg: u32,
)
    requires
        has_room(*fb, old(screen)@),
        x + CHAR_WIDTH * drawn_count(s.spec_bytes(), s.spec_bytes().len() as int) <= u32::MAX,
    ensures
        final(screen)@.len() == old(screen)@.len(),
        final(screen)@ == text_drawn(
            old(screen)@,
            *fb,
            font@,
            x as int,
            y,
            s.spec_bytes(),
            s.spec_bytes().len() as int,
            fg,
            None,
        ),
{
    draw_text(fb, screen, font, x, y, s.as_bytes(), fg, None);
}

/// The colour of the pixel in column `x` of line `y`.
pub open spec fn pixel(s: Seq<u8>, fb: Fb, x: int, y: int) -> u32 {
    let o = fb.offset(x, y);
    colour(s[o + 2] as int, s[o + 1] as int, s[o] as int)
}

/// The parts of a colour that a pixel keeps.
pub open spec fn kept(c: u32) -> u32 {
    colour(red(c), green(c), blue(c))
}

/// Different pixels do not share bytes.
proof fn lemma_apart(fb: Fb, x: int, y: int, u: int, v: int)
    requires
        fb.regular(),
        0 <= x < fb.width,
        0 <= y < fb.height,
        0 <= u < fb.width,
        0 <= v < fb.height,
        x != u || y != v,
    ensures
        fb.offset(x, y) + 3 <= fb.offset(u, v) || fb.offset(u, v) + 3 <= fb.offset(x, y),
{
    let p = fb.pixel_size();
    let l = fb.pitch as int;
    let w = fb.width as int;
    assert(y == v && x < u ==> x * p + p <= u * p) by (nonlinear_arith)
        requires
            p >= 0,
    ;
    assert(y == v && u < x ==> u * p + p <= x * p) by (nonlinear_arith)
        requires
            p >= 0,
    ;
    assert(0 <= x * p && x * p + p <= w * p) by (nonlinear_arith)
        requires
            0 <= x < w,
            p >= 0,
    ;
    assert(0 <= u * p && u * p + p <= w * p) by (nonlinear_arith)
        requires
            0 <= u < w,
            p >= 0,
    ;
    assert(y < v ==> y * l + l <= v * l) by (nonlinear_arith)
        requires
            l >= 0,
    ;
    assert(v < y ==> v * l + l <= y * l) by (nonlinear_arith)
        requires
            l >= 0,
    ;
}

/// Setting a pixel gives it its colour and leaves the others alone.
pub proof fn lemma_put(s: Seq<u8>, fb: Fb, u: int, v: int, c: u32, x: int, y: int)
    requires
        fb.regular(),
        fb.fits(s.len() as int),
        0 <= x < fb.width,
        0 <= y < fb.height,
        0 <= u < fb.width,
        0 <= v < fb.height,
    ensures
        pixel(put(s, fb, u, v, c), fb, x, y) == (if x == u && y == v {
            kept(c)
        } else {
            pixel(s, fb, x, y)
        }),
        put(s, fb, u, v, c).len() == s.len(),
{
    lemma_offset(fb, x, y);
    lemma_offset(fb, u, v);
    if x != u || y != v {
        lemma_apart(fb, x, y, u, v);
    }
}

/// A pixel after some painting: what the paint says inside of the area, as
/// before outside of it.
pub open spec fn pixel_after(
    s: Seq<u8>,
    fb: Fb,
    inside: bool,
    p: Paint,
    x: int,
    y: int,
) -> u32 {
    match p.at(x, y) {
        Some(c) => if inside {
            kept(c)
        } else {
            pixel(s, fb, x, y)
        },
        None => pixel(s, fb, x, y),
    }
}

proof fn lemma_line(s: Seq<u8>, fb: Fb, u: int, v: int, n: int, p: Paint, x: int, y: int)
    requires
        fb.regular(),
        fb.fits(s.len() as int),
        0 <= x < fb.width,
        0 <= y < fb.height,
        0 <= u,
        0 <= n,
        u + n <= fb.width,
        0 <= v < fb.height,
    ensures
        pixel(line(s, fb, u, v, n, p), fb, x, y) == pixel_after(
            s,
            fb,
            y == v && u <= x < u + n,
            p,
            x,
            y,
        ),
        line(s, fb, u, v, n, p).len() == s.len(),
    decreases n,
{
    if n > 0 {
        lemma_line(s, fb, u, v, n - 1, p, x, y);
        match p.at(u + n - 1, v) {
            Some(c) => lemma_put(line(s, fb, u, v, n - 1, p), fb, u + n - 1, v, c, x, y),
            None => {},
        }
    }
}

/// Painting an area on the screen gives every pixel in it the colour that the
/// paint has there, and leaves every other pixel as it was.
pub proof fn law_painting_stays_in_its_area(
    s: Seq<u8>,
    fb: Fb,
    u: int,
    v: int,
    w: int,
    h: int,
    p: Paint,
    x: int,
    y: int,
)
    requires
        fb.regular(),
        fb.fits(s.len() as int),
        0 <= x < fb.width,
        0 <= y < fb.height,
        0 <= u,
        0 <= v,
        0 <= w,
        0 <= h,
        w == 0 || u + w <= fb.width,
        v + h <= fb.height,
    ensures
        pixel(area(s, fb, u, v, w, h, p), fb, x, y) == pixel_after(
            s,
            fb,
            u <= x < u + w && v <= y < v + h,
            p,
            x,
            y,
        ),
        area(s, fb, u, v, w, h, p).len() == s.len(),
    decreases h,
{
    if h > 0 {
        law_painting_stays_in_its_area(s, fb, u, v, w, h - 1, p, x, y);
        if w > 0 {
            lemma_line(area(s, fb, u, v, w, h - 1, p), fb, u, v + h - 1, w, p, x, y);
        }
    }
}

/// A rectangle, cut at the edges of the screen, is painted and nothing else.
pub proof fn law_rectangle_is_cut_at_the_edges(
    s: Seq<u8>,
    fb: Fb,
    u: int,
    v: int,
    w: int,
    h: int,
    p: Paint,
    x: int,
    y: int,
)
    requires
        fb.regular(),
        fb.fits(s.len() as int),
        0 <= x < fb.width,
        0 <= y < fb.height,
        0 <= u,
        0 <= v,
        0 <= w,
        0 <= h,
    ensures
        pixel(painted(s, Some(fb), u, v, w, h, p), fb, x, y) == pixel_after(
            s,
            fb,
            u <= x < u + w && v <= y < v + h,
            p,
            x,
            y,
        ),
        painted(s, Some(fb), u, v, w, h, p).len() == s.len(),
{
    let cw = clipped(u, w, fb.width as int);
    let ch = clipped(v, h, fb.height as int);
    if ch > 0 {
        law_painting_stays_in_its_area(s, fb, u, v, cw, ch, p, x, y);
    }
}

/// A frame is drawn `t` pixels thick along the edges of its rectangle, and what
/// is inside of it stays.
pub proof fn law_frame_leaves_its_inside_alone(
    s: Seq<u8>,
    fb: Fb,
    u: int,
    v: int,
    w: int,
    h: int,
    color: u32,
    t: int,
    x: int,
    y: int,
)
    requires
        fb.regular(),
        fb.fits(s.len() as int),
        0 <= x < fb.width,
        0 <= y < fb.height,
        0 <= u,
        0 <= v,
        0 < w,
        0 < h,
        0 <= t,
        2 * t <= w,
        2 * t <= h,
    ensures
        ({
            let in_rect = u <= x < u + w && v <= y < v + h;
            let inside = u + t <= x < u + w - t && v + t <= y < v + h - t;
            pixel(framed(s, Some(fb), u, v, w, h, color, t), fb, x, y) == (if in_rect && !inside {
                kept(color)
            } else {
                pixel(s, fb, x, y)
            })
        }),
{
    let p = Paint::Solid(color);
    let side = h - 2 * t;
    let f = Some(fb);
    let s1 = painted(s, f, u, v, w, t, p);
    law_rectangle_is_cut_at_the_edges(s, fb, u, v, w, t, p, x, y);
    let s2 = painted(s1, f, u, v + h - t, w, t, p);
    law_rectangle_is_cut_at_the_edges(s1, fb, u, v + h - t, w, t, p, x, y);
    let s3 = painted(s2, f, u, v + t, t, side, p);
    law_rectangle_is_cut_at_the_edges(s2, fb, u, v + t, t, side, p, x, y);
    law_rectangle_is_cut_at_the_edges(s3, fb, u + w - t, v + t, t, side, p, x, y);
}

} // verus!
