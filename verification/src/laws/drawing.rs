//! Drawing: which pixel of the screen has which colour afterwards.

use vstd::prelude::*;
use vstd::string::*;
use crate::framebuffer;
use crate::framebuffer::{Fb, Paint};
use crate::multiboot2::FramebufferInfo;

verus! {

/// Where the pixel in column `x` of line `y` starts.
pub open spec fn place(b: Fb, x: int, y: int) -> int {
    y * b.pitch + x * (b.bpp as int / 8)
}

/// A pixel has three bytes or more, the pixels of a line fit in the line, and all of them
/// are in the memory of the screen.
pub open spec fn is_screen(b: Fb, s: Seq<u8>) -> bool {
    &&& b.width > 0 && b.height > 0
    &&& b.bpp as int / 8 >= 3
    &&& b.width * (b.bpp as int / 8) <= b.pitch
    &&& place(b, b.width - 1, b.height - 1) + 3 <= s.len()
    &&& place(b, b.width - 1, b.height - 1) <= 0xFFFF_FFFF
}

/// A pixel has a colour: blue, green and red, one byte each.
pub open spec fn has_colour(s: Seq<u8>, b: Fb, x: int, y: int, c: u32) -> bool {
    let o = place(b, x, y);
    &&& s[o] == c % 0x100
    &&& s[o + 1] == c / 0x100 % 0x100
    &&& s[o + 2] == c / 0x1_0000 % 0x100
}

/// A pixel has the same colour on both screens.
pub open spec fn same_pixel(s: Seq<u8>, t: Seq<u8>, b: Fb, x: int, y: int) -> bool {
    let o = place(b, x, y);
    t[o] == s[o] && t[o + 1] == s[o + 1] && t[o + 2] == s[o + 2]
}

/// A place of the memory holds no colour of a pixel.
pub open spec fn no_pixel(b: Fb, a: int) -> bool {
    forall|x: int, y: int|
        0 <= x < b.width && 0 <= y < b.height ==> !(#[trigger] place(b, x, y) <= a < place(b, x, y)
            + 3)
}

/// A pixel in a rectangle.
pub open spec fn in_rect(x: int, y: int, u: int, v: int, w: int, h: int) -> bool {
    u <= x < u + w && v <= y < v + h
}

pub proof fn lemma_screen(b: Fb, s: Seq<u8>, x: int, y: int)
    requires
        is_screen(b, s),
        0 <= x < b.width,
        0 <= y < b.height,
    ensures
        b.regular(),
        b.fits(s.len() as int),
        place(b, x, y) == b.offset(x, y),
        0 <= place(b, x, y),
        place(b, x, y) + 3 <= s.len(),
{
    framebuffer::lemma_offset(b, x, y);
}

proof fn lemma_same(s: Seq<u8>, t: Seq<u8>, b: Fb, x: int, y: int)
    requires
        framebuffer::pixel(t, b, x, y) == framebuffer::pixel(s, b, x, y),
    ensures
        same_pixel(s, t, b, x, y),
{
    let o = place(b, x, y);
    framebuffer::law_colour_gives_back_its_parts(s[o + 2], s[o + 1], s[o]);
    framebuffer::law_colour_gives_back_its_parts(t[o + 2], t[o + 1], t[o]);
}

proof fn lemma_colour(t: Seq<u8>, b: Fb, x: int, y: int, c: u32)
    requires
        framebuffer::pixel(t, b, x, y) == framebuffer::kept(c),
    ensures
        has_colour(t, b, x, y, c),
{
    let o = place(b, x, y);
    framebuffer::law_colour_gives_back_its_parts(t[o + 2], t[o + 1], t[o]);
    framebuffer::law_colour_gives_back_its_parts(
        framebuffer::red(c) as u8,
        framebuffer::green(c) as u8,
        framebuffer::blue(c) as u8,
    );
}

proof fn lemma_line_elsewhere(s: Seq<u8>, b: Fb, u: int, v: int, n: int, p: Paint, a: int)
    requires
        is_screen(b, s),
        no_pixel(b, a),
        0 <= u,
        u + n <= b.width,
        0 <= v < b.height,
        0 <= a < s.len(),
    ensures
        framebuffer::line(s, b, u, v, n, p).len() == s.len(),
        framebuffer::line(s, b, u, v, n, p)[a] == s[a],
    decreases n,
{
    if n > 0 {
        lemma_line_elsewhere(s, b, u, v, n - 1, p, a);
        lemma_screen(b, s, u + n - 1, v);
        assert(!(place(b, u + n - 1, v) <= a < place(b, u + n - 1, v) + 3));
    }
}

proof fn lemma_area_elsewhere(
    s: Seq<u8>,
    b: Fb,
    u: int,
    v: int,
    w: int,
    h: int,
    p: Paint,
    a: int,
)
    requires
        is_screen(b, s),
        no_pixel(b, a),
        0 <= u,
        0 <= v,
        w <= 0 || u + w <= b.width,
        v + h <= b.height || h <= 0,
        0 <= a < s.len(),
    ensures
        framebuffer::area(s, b, u, v, w, h, p).len() == s.len(),
        framebuffer::area(s, b, u, v, w, h, p)[a] == s[a],
    decreases h,
{
    if h > 0 {
        lemma_area_elsewhere(s, b, u, v, w, h - 1, p, a);
        if w > 0 {
            lemma_line_elsewhere(
                framebuffer::area(s, b, u, v, w, h - 1, p),
                b,
                u,
                v + h - 1,
                w,
                p,
                a,
            );
        }
    }
}

/// What painting a rectangle does to a pixel, and that it leaves bytes alone that belong
/// to none.
pub proof fn lemma_painted(
    s: Seq<u8>,
    b: Fb,
    u: int,
    v: int,
    w: int,
    h: int,
    p: Paint,
    x: int,
    y: int,
    a: int,
)
    requires
        is_screen(b, s),
        0 <= u,
        0 <= v,
        0 <= w,
        0 <= h,
        0 <= x < b.width,
        0 <= y < b.height,
        0 <= a < s.len(),
    ensures
        ({
            let t = framebuffer::painted(s, Some(b), u, v, w, h, p);
            &&& t.len() == s.len()
            &&& in_rect(x, y, u, v, w, h) ==> (match p.at(x, y) {
                Some(c) => has_colour(t, b, x, y, c),
                None => same_pixel(s, t, b, x, y),
            })
            &&& !in_rect(x, y, u, v, w, h) ==> same_pixel(s, t, b, x, y)
            &&& no_pixel(b, a) ==> t[a] == s[a]
        }),
{
    let t = framebuffer::painted(s, Some(b), u, v, w, h, p);
    lemma_screen(b, s, x, y);
    framebuffer::law_rectangle_is_cut_at_the_edges(s, b, u, v, w, h, p, x, y);
    if in_rect(x, y, u, v, w, h) {
        match p.at(x, y) {
            Some(c) => lemma_colour(t, b, x, y, c),
            None => lemma_same(s, t, b, x, y),
        }
    } else {
        lemma_same(s, t, b, x, y);
    }
    if no_pixel(b, a) {
        lemma_area_elsewhere(
            s,
            b,
            u,
            v,
            framebuffer::clipped(u, w, b.width as int),
            framebuffer::clipped(v, h, b.height as int),
            p,
            a,
        );
    }
}

/// One pixel, `(x, y)`, and one byte, `a`, after a rectangle was painted in a colour.
pub open spec fn filled_there(
    s: Seq<u8>,
    t: Seq<u8>,
    b: Fb,
    inside: bool,
    c: u32,
    x: int,
    y: int,
    a: int,
) -> bool {
    &&& t.len() == s.len()
    &&& inside ==> has_colour(t, b, x, y, c)
    &&& !inside ==> same_pixel(s, t, b, x, y)
    &&& no_pixel(b, a) ==> t[a] == s[a]
}

/// A pixel that is set has its colour, and no other pixel changes; one that is not on the
/// screen is passed over.
pub proof fn law_pixel_is_set(
    fb: &Option<Fb>,
    screen: &mut [u8],
    u: u32,
    v: u32,
    c: u32,
    x: int,
    y: int,
    a: int,
)
    requires
        fb is Some,
        is_screen(fb->0, old(screen)@),
        0 <= x < fb->0.width,
        0 <= y < fb->0.height,
        0 <= a < old(screen)@.len(),
        call_ensures(framebuffer::put_pixel, (fb, screen, u, v, c), ()),
    ensures
        filled_there(old(screen)@, final(screen)@, fb->0, x == u && y == v, c, x, y, a),
{
    let b = fb->0;
    let s = old(screen)@;
    lemma_screen(b, s, x, y);
    if u < b.width && v < b.height {
        lemma_screen(b, s, u as int, v as int);
        framebuffer::lemma_put(s, b, u as int, v as int, c, x, y);
        assert(final(screen)@ == framebuffer::put(s, b, u as int, v as int, c));
        if x == u && y == v {
            lemma_colour(final(screen)@, b, x, y, c);
        } else {
            lemma_same(s, final(screen)@, b, x, y);
        }
        if no_pixel(b, a) {
            assert(!(place(b, u as int, v as int) <= a < place(b, u as int, v as int) + 3));
        }
    }
}

/// A pixel that is set is three bytes at its place, whatever the geometry of the screen: no
/// other byte changes.
pub proof fn law_pixel_is_three_bytes(
    fb: &Option<Fb>,
    screen: &mut [u8],
    u: u32,
    v: u32,
    c: u32,
    a: int,
)
    requires
        framebuffer::has_room(*fb, old(screen)@),
        0 <= a < old(screen)@.len(),
        call_ensures(framebuffer::put_pixel, (fb, screen, u, v, c), ()),
    ensures
        ({
            let there = fb is Some && u < fb->0.width && v < fb->0.height;
            let o = place(fb->0, u as int, v as int);
            final(screen)@[a] == (if !there {
                old(screen)@[a] as int
            } else if a == o {
                c as int % 0x100
            } else if a == o + 1 {
                c as int / 0x100 % 0x100
            } else if a == o + 2 {
                c as int / 0x1_0000 % 0x100
            } else {
                old(screen)@[a] as int
            })
        }),
{
    if fb is Some && u < fb->0.width && v < fb->0.height {
        framebuffer::lemma_offset(fb->0, u as int, v as int);
    }
}

/// A pixel is on one of the bars of a frame: at the top, at the bottom if the rectangle is
/// higher than the frame is thick, and at the left and the right between them, the right one
/// if the rectangle is wider than the frame is thick.
pub open spec fn on_frame(x: int, y: int, u: int, v: int, w: int, h: int, n: int) -> bool {
    let side = if h >= 2 * n {
        h - 2 * n
    } else {
        0
    };
    w > 0 && h > 0 && (in_rect(x, y, u, v, w, n) || h > n && in_rect(x, y, u, v + h - n, w, n)
        || in_rect(x, y, u, v + n, n, side) || w > n && in_rect(x, y, u + w - n, v + n, n, side))
}

/// What drawing a frame does to a pixel.
pub proof fn lemma_framed(
    s: Seq<u8>,
    b: Fb,
    u: int,
    v: int,
    w: int,
    h: int,
    c: u32,
    n: int,
    x: int,
    y: int,
    a: int,
)
    requires
        is_screen(b, s),
        0 <= u,
        0 <= v,
        0 <= w,
        0 <= h,
        0 <= n,
        0 <= x < b.width,
        0 <= y < b.height,
        0 <= a < s.len(),
    ensures
        filled_there(
            s,
            framebuffer::framed(s, Some(b), u, v, w, h, c, n),
            b,
            on_frame(x, y, u, v, w, h, n),
            c,
            x,
            y,
            a,
        ),
{
    let p = Paint::Solid(c);
    let f = Some(b);
    let side = if h >= 2 * n {
        h - 2 * n
    } else {
        0
    };
    if w > 0 && h > 0 {
        let s1 = framebuffer::painted(s, f, u, v, w, n, p);
        lemma_painted(s, b, u, v, w, n, p, x, y, a);
        let s2 = if h > n {
            framebuffer::painted(s1, f, u, v + h - n, w, n, p)
        } else {
            s1
        };
        if h > n {
            lemma_painted(s1, b, u, v + h - n, w, n, p, x, y, a);
        }
        let s3 = framebuffer::painted(s2, f, u, v + n, n, side, p);
        lemma_painted(s2, b, u, v + n, n, side, p, x, y, a);
        if w > n {
            lemma_painted(s3, b, u + w - n, v + n, n, side, p, x, y, a);
        }
    }
}

/// A frame is four bars, however thick it is. See `on_frame`.
pub proof fn law_frame_is_four_bars(
    fb: &Option<Fb>,
    screen: &mut [u8],
    u: u32,
    v: u32,
    w: u32,
    h: u32,
    c: u32,
    n: u32,
    x: int,
    y: int,
    a: int,
)
    requires
        fb is Some,
        is_screen(fb->0, old(screen)@),
        0 <= x < fb->0.width,
        0 <= y < fb->0.height,
        0 <= a < old(screen)@.len(),
        call_ensures(framebuffer::draw_rect, (fb, screen, u, v, w, h, c, n), ()),
    ensures
        filled_there(
            old(screen)@,
            final(screen)@,
            fb->0,
            on_frame(x, y, u as int, v as int, w as int, h as int, n as int),
            c,
            x,
            y,
            a,
        ),
{
    lemma_framed(
        old(screen)@,
        fb->0,
        u as int,
        v as int,
        w as int,
        h as int,
        c,
        n as int,
        x,
        y,
        a,
    );
}

/// A screen that is cleared has the colour everywhere.
pub proof fn law_cleared_screen_has_one_colour(
    fb: &Option<Fb>,
    screen: &mut [u8],
    c: u32,
    x: int,
    y: int,
    a: int,
)
    requires
        fb is Some,
        is_screen(fb->0, old(screen)@),
        0 <= x < fb->0.width,
        0 <= y < fb->0.height,
        0 <= a < old(screen)@.len(),
        call_ensures(framebuffer::clear, (fb, screen, c), ()),
    ensures
        filled_there(old(screen)@, final(screen)@, fb->0, true, c, x, y, a),
{
    let b = fb->0;
    lemma_painted(
        old(screen)@,
        b,
        0,
        0,
        b.width as int,
        b.height as int,
        Paint::Solid(c),
        x,
        y,
        a,
    );
}

/// A rectangle that is filled has the colour, and no pixel outside of it changes.
pub proof fn law_filled_rectangle_has_its_colour(
    fb: &Option<Fb>,
    screen: &mut [u8],
    u: u32,
    v: u32,
    w: u32,
    h: u32,
    c: u32,
    x: int,
    y: int,
    a: int,
)
    requires
        fb is Some,
        is_screen(fb->0, old(screen)@),
        0 <= x < fb->0.width,
        0 <= y < fb->0.height,
        0 <= a < old(screen)@.len(),
        call_ensures(framebuffer::fill_rect, (fb, screen, u, v, w, h, c), ()),
    ensures
        filled_there(
            old(screen)@,
            final(screen)@,
            fb->0,
            in_rect(x, y, u as int, v as int, w as int, h as int),
            c,
            x,
            y,
            a,
        ),
{
    lemma_painted(
        old(screen)@,
        fb->0,
        u as int,
        v as int,
        w as int,
        h as int,
        Paint::Solid(c),
        x,
        y,
        a,
    );
}

/// A line has its colour from its start on, and no other pixel changes.
pub proof fn law_line_has_its_colour(
    fb: &Option<Fb>,
    across: &mut [u8],
    down: &mut [u8],
    u: u32,
    v: u32,
    n: u32,
    c: u32,
    x: int,
    y: int,
    a: int,
)
    requires
        fb is Some,
        is_screen(fb->0, old(across)@),
        is_screen(fb->0, old(down)@),
        0 <= x < fb->0.width,
        0 <= y < fb->0.height,
        0 <= a < old(across)@.len(),
        0 <= a < old(down)@.len(),
        call_ensures(framebuffer::draw_hline, (fb, across, u, v, n, c), ()),
        call_ensures(framebuffer::draw_vline, (fb, down, u, v, n, c), ()),
    ensures
        filled_there(
            old(across)@,
            final(across)@,
            fb->0,
            y == v && u <= x < u + n,
            c,
            x,
            y,
            a,
        ),
        filled_there(old(down)@, final(down)@, fb->0, x == u && v <= y < v + n, c, x, y, a),
{
    lemma_painted(
        old(across)@,
        fb->0,
        u as int,
        v as int,
        n as int,
        1,
        Paint::Solid(c),
        x,
        y,
        a,
    );
    lemma_painted(old(down)@, fb->0, u as int, v as int, 1, n as int, Paint::Solid(c), x, y, a);
}

/// A frame has its colour along the edges of its rectangle, as thick as was asked for; what
/// is inside of it, and outside of the rectangle, stays.
pub proof fn law_frame_has_its_colour(
    fb: &Option<Fb>,
    screen: &mut [u8],
    u: u32,
    v: u32,
    w: u32,
    h: u32,
    c: u32,
    n: u32,
    x: int,
    y: int,
)
    requires
        fb is Some,
        is_screen(fb->0, old(screen)@),
        0 <= x < fb->0.width,
        0 <= y < fb->0.height,
        0 < w,
        0 < h,
        2 * n <= w,
        2 * n <= h,
        call_ensures(framebuffer::draw_rect, (fb, screen, u, v, w, h, c, n), ()),
    ensures
        ({
            let drawn = in_rect(x, y, u as int, v as int, w as int, h as int) && !in_rect(
                x,
                y,
                u + n,
                v + n,
                w - 2 * n,
                h - 2 * n,
            );
            &&& drawn ==> has_colour(final(screen)@, fb->0, x, y, c)
            &&& !drawn ==> same_pixel(old(screen)@, final(screen)@, fb->0, x, y)
        }),
{
    let b = fb->0;
    let s = old(screen)@;
    lemma_screen(b, s, x, y);
    framebuffer::law_frame_leaves_its_inside_alone(
        s,
        b,
        u as int,
        v as int,
        w as int,
        h as int,
        c,
        n as int,
        x,
        y,
    );
    if framebuffer::pixel(final(screen)@, b, x, y) == framebuffer::kept(c) {
        lemma_colour(final(screen)@, b, x, y, c);
    }
    if framebuffer::pixel(final(screen)@, b, x, y) == framebuffer::pixel(s, b, x, y) {
        lemma_same(s, final(screen)@, b, x, y);
    }
}

/// A part of a colour, `t` of `n` steps on the way from `a` to `b`, to the nearest whole
/// number on the side of `a`.
pub open spec fn on_the_way(a: int, b: int, t: int, n: int, r: int) -> bool {
    &&& a <= b ==> (r - a) * n <= (b - a) * t < (r - a + 1) * n
    &&& b <= a ==> (a - r) * n <= (a - b) * t < (a - r + 1) * n
}

/// The three parts of a pixel are on the way from one colour to another.
pub open spec fn shaded(s: Seq<u8>, b: Fb, x: int, y: int, c: u32, d: u32, t: int, n: int) -> bool {
    let o = place(b, x, y);
    &&& on_the_way(c as int % 0x100, d as int % 0x100, t, n, s[o] as int)
    &&& on_the_way(c as int / 0x100 % 0x100, d as int / 0x100 % 0x100, t, n, s[o + 1] as int)
    &&& on_the_way(c as int / 0x1_0000 % 0x100, d as int / 0x1_0000 % 0x100, t, n, s[o + 2] as int)
}

proof fn lemma_on_the_way(a: int, b: int, t: int, n: int)
    requires
        0 <= a <= 255,
        0 <= b <= 255,
        0 <= t < n,
    ensures
        on_the_way(a, b, t, n, framebuffer::between(a, b, t, n)),
        0 <= framebuffer::between(a, b, t, n) <= 255,
{
    reveal(framebuffer::between);
    framebuffer::lemma_between(a, b, t, n);
    let r = framebuffer::between(a, b, t, n);
    if b >= a {
        let k = (b - a) * t;
        vstd::arithmetic::div_mod::lemma_fundamental_div_mod(k, n);
        vstd::arithmetic::div_mod::lemma_mod_bound(k, n);
        let q = k / n;
        assert(n * q == q * n) by (nonlinear_arith);
        assert((q + 1) * n == q * n + n) by (nonlinear_arith);
        assert(r - a == q);
    }
    if a >= b {
        let k = (a - b) * t;
        vstd::arithmetic::div_mod::lemma_fundamental_div_mod(k, n);
        vstd::arithmetic::div_mod::lemma_mod_bound(k, n);
        let q = k / n;
        assert(n * q == q * n) by (nonlinear_arith);
        assert((q + 1) * n == q * n + n) by (nonlinear_arith);
        if a == b {
            assert((b - a) * t == 0 && (a - b) * t == 0) by (nonlinear_arith)
                requires
                    a == b,
            ;
            assert(q == 0) by (nonlinear_arith)
                requires
                    k == 0,
                    n > 0,
                    q == k / n,
            ;
        }
        assert(a - r == q);
    }
}

pub proof fn lemma_shaded(s: Seq<u8>, b: Fb, x: int, y: int, c: u32, d: u32, t: int, n: int)
    requires
        0 <= t < n,
        has_colour(s, b, x, y, framebuffer::shade(c, d, t, n)),
    ensures
        shaded(s, b, x, y, c, d, t, n),
{
    let r = framebuffer::between(framebuffer::red(c), framebuffer::red(d), t, n);
    let g = framebuffer::between(framebuffer::green(c), framebuffer::green(d), t, n);
    let e = framebuffer::between(framebuffer::blue(c), framebuffer::blue(d), t, n);
    lemma_on_the_way(framebuffer::red(c), framebuffer::red(d), t, n);
    lemma_on_the_way(framebuffer::green(c), framebuffer::green(d), t, n);
    lemma_on_the_way(framebuffer::blue(c), framebuffer::blue(d), t, n);
    framebuffer::law_colour_gives_back_its_parts(r as u8, g as u8, e as u8);
}

/// A gradient goes from the first colour to the second, step by step from the left to the
/// right, and no pixel outside of its rectangle changes.
pub proof fn law_gradient_goes_across(
    fb: &Option<Fb>,
    screen: &mut [u8],
    u: u32,
    v: u32,
    w: u32,
    h: u32,
    c: u32,
    d: u32,
    x: int,
    y: int,
    a: int,
)
    requires
        fb is Some,
        is_screen(fb->0, old(screen)@),
        0 <= x < fb->0.width,
        0 <= y < fb->0.height,
        0 <= a < old(screen)@.len(),
        call_ensures(framebuffer::fill_gradient_h, (fb, screen, u, v, w, h, c, d), ()),
    ensures
        in_rect(x, y, u as int, v as int, w as int, h as int) ==> shaded(
            final(screen)@,
            fb->0,
            x,
            y,
            c,
            d,
            x - u,
            w as int,
        ),
        !in_rect(x, y, u as int, v as int, w as int, h as int) ==> same_pixel(
            old(screen)@,
            final(screen)@,
            fb->0,
            x,
            y,
        ),
        no_pixel(fb->0, a) ==> final(screen)@[a] == old(screen)@[a],
{
    let p = Paint::Across { from: u, len: w, first: c, last: d };
    lemma_painted(old(screen)@, fb->0, u as int, v as int, w as int, h as int, p, x, y, a);
    if in_rect(x, y, u as int, v as int, w as int, h as int) {
        lemma_shaded(final(screen)@, fb->0, x, y, c, d, x - u, w as int);
    }
}

/// A gradient goes from the first colour to the second, step by step from the top to the
/// bottom, and no pixel outside of its rectangle changes.
pub proof fn law_gradient_goes_down(
    fb: &Option<Fb>,
    screen: &mut [u8],
    u: u32,
    v: u32,
    w: u32,
    h: u32,
    c: u32,
    d: u32,
    x: int,
    y: int,
    a: int,
)
    requires
        fb is Some,
        is_screen(fb->0, old(screen)@),
        0 <= x < fb->0.width,
        0 <= y < fb->0.height,
        0 <= a < old(screen)@.len(),
        call_ensures(framebuffer::fill_gradient_v, (fb, screen, u, v, w, h, c, d), ()),
    ensures
        in_rect(x, y, u as int, v as int, w as int, h as int) ==> shaded(
            final(screen)@,
            fb->0,
            x,
            y,
            c,
            d,
            y - v,
            h as int,
        ),
        !in_rect(x, y, u as int, v as int, w as int, h as int) ==> same_pixel(
            old(screen)@,
            final(screen)@,
            fb->0,
            x,
            y,
        ),
        no_pixel(fb->0, a) ==> final(screen)@[a] == old(screen)@[a],
{
    let p = Paint::Down { from: v, len: h, first: c, last: d };
    lemma_painted(old(screen)@, fb->0, u as int, v as int, w as int, h as int, p, x, y, a);
    if in_rect(x, y, u as int, v as int, w as int, h as int) {
        lemma_shaded(final(screen)@, fb->0, x, y, c, d, y - v, h as int);
    }
}

/// Where the 16 lines of a character start in a font, which starts with the blank.
pub open spec fn glyph_start(ch: u8) -> int {
    if 32 <= ch < 128 {
        16 * (ch - 32)
    } else {
        0
    }
}

/// The pixel in column `i` of line `j` of a character is set: bit 7 of a line is the left
/// one.
pub open spec fn dot(font: Seq<u8>, ch: u8, i: int, j: int) -> bool {
    (font[glyph_start(ch) + j] >> ((7 - i) as u8)) % 2 == 1
}

proof fn lemma_shift(r: u8)
    by (bit_vector)
    ensures
        r >> 7u8 == r / 128,
        r >> 6u8 == r / 64,
        r >> 5u8 == r / 32,
        r >> 4u8 == r / 16,
        r >> 3u8 == r / 8,
        r >> 2u8 == r / 4,
        r >> 1u8 == r / 2,
        r >> 0u8 == r,
{
}

proof fn lemma_dot(font: Seq<u8>, ch: u8, i: int, j: int)
    requires
        0 <= i < 8,
        0 <= j < 16,
        glyph_start(ch) + 16 <= font.len(),
    ensures
        framebuffer::glyph(font, ch) is Some,
        framebuffer::glyph(font, ch)->0@[j] as int / framebuffer::COLUMN_WEIGHT@[i] as int % 2 == 1
            <==> dot(font, ch, i, j),
{
    let o = glyph_start(ch);
    let part = font.subrange(o, o + 16);
    framebuffer::lemma_rows(part);
    assert(framebuffer::glyph(font, ch)->0@[j] == font[o + j]);
    lemma_shift(font[o + j]);
    assert(i == 0 || i == 1 || i == 2 || i == 3 || i == 4 || i == 5 || i == 6 || i == 7);
}

/// A pixel after a character was drawn at `(u, v)`: the text colour where the character
/// has a dot, the background elsewhere in its 8 columns and 16 lines, if there is one, and
/// no change outside. A character that the font does not have changes nothing.
pub open spec fn char_there(
    s: Seq<u8>,
    t: Seq<u8>,
    b: Fb,
    font: Seq<u8>,
    u: int,
    v: int,
    ch: u8,
    fg: u32,
    bg: Option<u32>,
    x: int,
    y: int,
) -> bool {
    if glyph_start(ch) + 16 <= font.len() && in_rect(x, y, u, v, 8, 16) {
        if dot(font, ch, x - u, y - v) {
            has_colour(t, b, x, y, fg)
        } else {
            match bg {
                Some(c) => has_colour(t, b, x, y, c),
                None => same_pixel(s, t, b, x, y),
            }
        }
    } else {
        same_pixel(s, t, b, x, y)
    }
}

proof fn lemma_char(
    s: Seq<u8>,
    b: Fb,
    font: Seq<u8>,
    u: u32,
    v: u32,
    ch: u8,
    fg: u32,
    bg: Option<u32>,
    x: int,
    y: int,
    a: int,
)
    requires
        is_screen(b, s),
        0 <= x < b.width,
        0 <= y < b.height,
        0 <= a < s.len(),
    ensures
        ({
            let t = framebuffer::char_drawn(s, Some(b), font, u, v, ch, fg, bg);
            &&& t.len() == s.len()
            &&& char_there(s, t, b, font, u as int, v as int, ch, fg, bg, x, y)
            &&& no_pixel(b, a) ==> t[a] == s[a]
        }),
{
    match framebuffer::glyph(font, ch) {
        Some(rows) => {
            let p = Paint::Glyph { x: u, y: v, rows, fg, bg };
            lemma_painted(s, b, u as int, v as int, 8, 16, p, x, y, a);
            if in_rect(x, y, u as int, v as int, 8, 16) {
                lemma_dot(font, ch, x - u, y - v);
            }
        },
        None => {},
    }
}

/// A character is drawn dot by dot. See `char_there`.
pub proof fn law_character_is_drawn_dot_by_dot(
    fb: &Option<Fb>,
    solid: &mut [u8],
    clear: &mut [u8],
    font: &[u8],
    u: u32,
    v: u32,
    ch: u8,
    fg: u32,
    bg: u32,
    x: int,
    y: int,
    a: int,
)
    requires
        fb is Some,
        is_screen(fb->0, old(solid)@),
        is_screen(fb->0, old(clear)@),
        0 <= x < fb->0.width,
        0 <= y < fb->0.height,
        0 <= a < old(solid)@.len(),
        0 <= a < old(clear)@.len(),
        call_ensures(framebuffer::draw_char, (fb, solid, font, u, v, ch, fg, bg), ()),
        call_ensures(framebuffer::draw_char_transparent, (fb, clear, font, u, v, ch, fg), ()),
    ensures
        char_there(
            old(solid)@,
            final(solid)@,
            fb->0,
            font@,
            u as int,
            v as int,
            ch,
            fg,
            Some(bg),
            x,
            y,
        ),
        char_there(
            old(clear)@,
            final(clear)@,
            fb->0,
            font@,
            u as int,
            v as int,
            ch,
            fg,
            None,
            x,
            y,
        ),
        no_pixel(fb->0, a) ==> final(solid)@[a] == old(solid)@[a] && final(clear)@[a] == old(clear)@[a],
{
    lemma_char(old(solid)@, fb->0, font@, u, v, ch, fg, Some(bg), x, y, a);
    lemma_char(old(clear)@, fb->0, font@, u, v, ch, fg, None, x, y, a);
}

/// How many characters of a text come before byte `i`: all bytes but line feeds.
pub open spec fn shown_before(t: Seq<u8>, i: int) -> int
    decreases i,
{
    if i <= 0 {
        0
    } else if t[i - 1] == 0x0A {
        shown_before(t, i - 1)
    } else {
        shown_before(t, i - 1) + 1
    }
}

proof fn lemma_shown(t: Seq<u8>, i: int)
    requires
        0 <= i,
    ensures
        framebuffer::drawn_count(t, i) == shown_before(t, i),
        0 <= shown_before(t, i),
    decreases i,
{
    if i > 0 {
        lemma_shown(t, i - 1);
    }
}

proof fn lemma_shown_grows(t: Seq<u8>, i: int, n: int)
    requires
        0 <= i <= n,
    ensures
        shown_before(t, i) <= shown_before(t, n),
        i < n && t[i] != 0x0A ==> shown_before(t, i) < shown_before(t, n),
    decreases n,
{
    if i < n {
        lemma_shown_grows(t, i, n - 1);
    }
}

proof fn lemma_text(
    s: Seq<u8>,
    b: Fb,
    font: Seq<u8>,
    u: u32,
    v: u32,
    text: Seq<u8>,
    n: int,
    fg: u32,
    bg: Option<u32>,
    i: int,
    x: int,
    y: int,
)
    requires
        is_screen(b, s),
        0 <= n <= text.len(),
        0 <= i < text.len(),
        text[i] != 0x0A,
        u + 8 * shown_before(text, text.len() as int) <= 0xFFFF_FFFF,
        0 <= x < b.width,
        0 <= y < b.height,
        in_rect(x, y, u + 8 * shown_before(text, i), v as int, 8, 16),
    ensures
        ({
            let t = framebuffer::text_drawn(s, Some(b), font, u as int, v, text, n, fg, bg);
            &&& t.len() == s.len()
            &&& n <= i ==> same_pixel(s, t, b, x, y)
            &&& n > i ==> char_there(
                s,
                t,
                b,
                font,
                u + 8 * shown_before(text, i),
                v as int,
                text[i],
                fg,
                bg,
                x,
                y,
            )
        }),
    decreases n,
{
    if n > 0 {
        lemma_text(s, b, font, u, v, text, n - 1, fg, bg, i, x, y);
        let t0 = framebuffer::text_drawn(s, Some(b), font, u as int, v, text, n - 1, fg, bg);
        lemma_shown(text, n - 1);
        lemma_shown_grows(text, n - 1, text.len() as int);
        if text[n - 1] != 0x0A {
            let cx = (u + 8 * shown_before(text, n - 1)) as u32;
            lemma_char(t0, b, font, cx, v, text[n - 1], fg, bg, x, y, 0);
            if n - 1 < i {
                lemma_shown_grows(text, n - 1, i);
            }
            if n - 1 > i {
                lemma_shown_grows(text, i, n - 1);
            }
        }
    }
}

pub proof fn lemma_text_elsewhere(
    s: Seq<u8>,
    b: Fb,
    font: Seq<u8>,
    u: u32,
    v: u32,
    text: Seq<u8>,
    n: int,
    fg: u32,
    bg: Option<u32>,
    x: int,
    y: int,
    a: int,
)
    requires
        is_screen(b, s),
        0 <= n <= text.len(),
        u + 8 * shown_before(text, text.len() as int) <= 0xFFFF_FFFF,
        0 <= x < b.width,
        0 <= y < b.height,
        0 <= a < s.len(),
        !in_rect(x, y, u as int, v as int, 8 * shown_before(text, text.len() as int), 16),
    ensures
        ({
            let t = framebuffer::text_drawn(s, Some(b), font, u as int, v, text, n, fg, bg);
            &&& t.len() == s.len()
            &&& same_pixel(s, t, b, x, y)
            &&& no_pixel(b, a) ==> t[a] == s[a]
        }),
    decreases n,
{
    if n > 0 {
        lemma_text_elsewhere(s, b, font, u, v, text, n - 1, fg, bg, x, y, a);
        let t0 = framebuffer::text_drawn(s, Some(b), font, u as int, v, text, n - 1, fg, bg);
        lemma_shown(text, n - 1);
        lemma_shown_grows(text, n - 1, text.len() as int);
        if text[n - 1] != 0x0A {
            let cx = (u + 8 * shown_before(text, n - 1)) as u32;
            lemma_char(t0, b, font, cx, v, text[n - 1], fg, bg, x, y, a);
        }
    }
}

/// Each character of a text is drawn 8 columns behind the one before; line feeds are passed
/// over. See `char_there`. Pixels outside of the 16 lines and the columns of the text do
/// not change.
pub proof fn law_text_is_drawn_character_by_character(
    fb: &Option<Fb>,
    screen: &mut [u8],
    font: &[u8],
    u: u32,
    v: u32,
    s: &str,
    fg: u32,
    bg: u32,
    i: int,
    x: int,
    y: int,
    a: int,
)
    requires
        fb is Some,
        is_screen(fb->0, old(screen)@),
        0 <= x < fb->0.width,
        0 <= y < fb->0.height,
        0 <= a < old(screen)@.len(),
        u + 8 * shown_before(s.spec_bytes(), s.spec_bytes().len() as int) <= 0xFFFF_FFFF,
        0 <= i < s.spec_bytes().len(),
        s.spec_bytes()[i] != 0x0A,
        call_ensures(framebuffer::draw_string, (fb, screen, font, u, v, s, fg, bg), ()),
    ensures
        ({
            let t = s.spec_bytes();
            let cx = u + 8 * shown_before(t, i);
            &&& in_rect(x, y, cx, v as int, 8, 16) ==> char_there(
                old(screen)@,
                final(screen)@,
                fb->0,
                font@,
                cx,
                v as int,
                t[i],
                fg,
                Some(bg),
                x,
                y,
            )
            &&& !in_rect(x, y, u as int, v as int, 8 * shown_before(t, t.len() as int), 16)
                ==> same_pixel(old(screen)@, final(screen)@, fb->0, x, y) && (no_pixel(fb->0, a)
                ==> final(screen)@[a] == old(screen)@[a])
        }),
{
    let t = s.spec_bytes();
    let n = t.len() as int;
    let o = old(screen)@;
    if in_rect(x, y, u + 8 * shown_before(t, i), v as int, 8, 16) {
        lemma_text(o, fb->0, font@, u, v, t, n, fg, Some(bg), i, x, y);
    }
    if !in_rect(x, y, u as int, v as int, 8 * shown_before(t, n), 16) {
        lemma_text_elsewhere(o, fb->0, font@, u, v, t, n, fg, Some(bg), x, y, a);
    }
}

/// A text that is drawn without a background changes the pixels of its dots alone; they are
/// those of `law_text_is_drawn_character_by_character`.
pub proof fn law_transparent_text_changes_its_dots_alone(
    fb: &Option<Fb>,
    screen: &mut [u8],
    font: &[u8],
    u: u32,
    v: u32,
    s: &str,
    fg: u32,
    i: int,
    x: int,
    y: int,
    a: int,
)
    requires
        fb is Some,
        is_screen(fb->0, old(screen)@),
        0 <= x < fb->0.width,
        0 <= y < fb->0.height,
        0 <= a < old(screen)@.len(),
        u + 8 * shown_before(s.spec_bytes(), s.spec_bytes().len() as int) <= 0xFFFF_FFFF,
        0 <= i < s.spec_bytes().len(),
        s.spec_bytes()[i] != 0x0A,
        call_ensures(framebuffer::draw_string_transparent, (fb, screen, font, u, v, s, fg), ()),
    ensures
        ({
            let t = s.spec_bytes();
            let cx = u + 8 * shown_before(t, i);
            &&& in_rect(x, y, cx, v as int, 8, 16) ==> char_there(
                old(screen)@,
                final(screen)@,
                fb->0,
                font@,
                cx,
                v as int,
                t[i],
                fg,
                None,
                x,
                y,
            )
            &&& !in_rect(x, y, u as int, v as int, 8 * shown_before(t, t.len() as int), 16)
                ==> same_pixel(old(screen)@, final(screen)@, fb->0, x, y) && (no_pixel(fb->0, a)
                ==> final(screen)@[a] == old(screen)@[a])
        }),
{
    let t = s.spec_bytes();
    let n = t.len() as int;
    let o = old(screen)@;
    if in_rect(x, y, u + 8 * shown_before(t, i), v as int, 8, 16) {
        lemma_text(o, fb->0, font@, u, v, t, n, fg, None, i, x, y);
    }
    if !in_rect(x, y, u as int, v as int, 8 * shown_before(t, n), 16) {
        lemma_text_elsewhere(o, fb->0, font@, u, v, t, n, fg, None, x, y, a);
    }
}

/// A colour has red, green and blue in one byte each, from the high one to the low one. A
/// mix of two colours has, in each part, `alpha` parts of 255 of the second one and the
/// rest of the first.
pub proof fn law_colours_have_three_parts(
    r: u8,
    g: u8,
    b: u8,
    c: u32,
    c1: u32,
    c2: u32,
    alpha: u8,
    m: u32,
)
    requires
        call_ensures(framebuffer::rgb, (r, g, b), c),
        call_ensures(framebuffer::blend, (c1, c2, alpha), m),
    ensures
        c == 0x1_0000 * r + 0x100 * g + b,
        m < 0x100_0000,
        is_mix(c1 as int % 0x100, c2 as int % 0x100, alpha as int, m as int % 0x100),
        is_mix(
            c1 as int / 0x100 % 0x100,
            c2 as int / 0x100 % 0x100,
            alpha as int,
            m as int / 0x100 % 0x100,
        ),
        is_mix(
            c1 as int / 0x1_0000 % 0x100,
            c2 as int / 0x1_0000 % 0x100,
            alpha as int,
            m as int / 0x1_0000,
        ),
{
    let x = framebuffer::mixed(framebuffer::red(c1), framebuffer::red(c2), alpha as int);
    let y = framebuffer::mixed(framebuffer::green(c1), framebuffer::green(c2), alpha as int);
    let z = framebuffer::mixed(framebuffer::blue(c1), framebuffer::blue(c2), alpha as int);
    framebuffer::lemma_mixed(framebuffer::red(c1), framebuffer::red(c2), alpha as int);
    framebuffer::lemma_mixed(framebuffer::green(c1), framebuffer::green(c2), alpha as int);
    framebuffer::lemma_mixed(framebuffer::blue(c1), framebuffer::blue(c2), alpha as int);
    lemma_is_mix(framebuffer::red(c1), framebuffer::red(c2), alpha as int);
    lemma_is_mix(framebuffer::green(c1), framebuffer::green(c2), alpha as int);
    lemma_is_mix(framebuffer::blue(c1), framebuffer::blue(c2), alpha as int);
    assert(m == framebuffer::colour(x, y, z));
    framebuffer::law_colour_gives_back_its_parts(x as u8, y as u8, z as u8);
}

/// A part of a mixed colour, rounded down.
pub open spec fn is_mix(a: int, b: int, alpha: int, r: int) -> bool {
    255 * r <= a * (255 - alpha) + b * alpha < 255 * (r + 1)
}

proof fn lemma_is_mix(a: int, b: int, alpha: int)
    ensures
        is_mix(a, b, alpha, framebuffer::mixed(a, b, alpha)),
{
    reveal(framebuffer::mixed);
}

/// The screen is the one that the boot loader names, every part of it. It is used if its
/// last pixel lies in the memory.
pub proof fn law_screen_is_the_one_of_the_boot_loader(
    fb: &mut Option<Fb>,
    info: &FramebufferInfo,
    now: &Option<Fb>,
    len: usize,
    g: Option<Fb>,
    there: bool,
    w: u32,
    h: u32,
)
    requires
        call_ensures(framebuffer::init, (fb, info), ()),
        call_ensures(framebuffer::geometry_within, (now, len), g),
        call_ensures(framebuffer::is_available, (now,), there),
        call_ensures(framebuffer::width, (now,), w),
        call_ensures(framebuffer::height, (now,), h),
    ensures
        *final(fb) matches Some(b) && b.addr == info.addr && b.pitch == info.pitch && b.width
            == info.width && b.height == info.height && b.bpp == info.bpp,
        there <==> *now is Some,
        *now matches Some(b) ==> w == b.width && h == b.height,
        *now is None ==> w == 0 && h == 0 && g is None,
        g is Some ==> g == *now,
        *now matches Some(b) ==> b.width > 0 && b.height > 0 ==> (g is Some <==> place(
            b,
            b.width - 1,
            b.height - 1,
        ) + 3 <= len && place(b, b.width - 1, b.height - 1) <= 0xFFFF_FFFF),
{
}

} // verus!
