//! The picture that the kernel shows: where its parts are, and in which colours.

use vstd::prelude::*;
use vstd::string::*;
use crate::demo;
use crate::framebuffer;
use crate::framebuffer::{Fb, Paint};
use crate::text;
use super::drawing::{
    has_colour, is_screen, lemma_framed, lemma_painted, lemma_shaded, lemma_text_elsewhere,
    same_pixel, shaded, shown_before,
};

verus! {

/// The left edge of the palette, which is 912 pixels wide and in the middle.
pub open spec fn left_edge(b: Fb) -> int {
    (b.width - 912) / 2
}

/// The colour of box `k` of the palette.
pub open spec fn box_colour(k: int) -> u32 {
    if k == 0 {
        0xFF0000
    } else if k == 1 {
        0x00FF00
    } else if k == 2 {
        0x0000FF
    } else if k == 3 {
        0x00FFFF
    } else if k == 4 {
        0xFFFF00
    } else if k == 5 {
        0xFF00FF
    } else if k == 6 {
        0xFF8000
    } else {
        0xFFFFFF
    }
}

proof fn lemma_shown_bound(t: Seq<u8>, i: int)
    requires
        0 <= i,
    ensures
        0 <= shown_before(t, i) <= i,
    decreases i,
{
    if i > 0 {
        lemma_shown_bound(t, i - 1);
    }
}

/// A text leaves the pixels above and below its 16 lines alone.
proof fn lemma_text_lines(
    s: Seq<u8>,
    b: Fb,
    font: Seq<u8>,
    u: int,
    v: u32,
    t: Seq<u8>,
    fg: u32,
    bg: Option<u32>,
    x: int,
    y: int,
)
    requires
        is_screen(b, s),
        0 <= u,
        u + 8 * t.len() <= 0xFFFF_FFFF,
        0 <= x < b.width,
        0 <= y < b.height,
        y < v || y >= v + 16,
    ensures
        ({
            let r = demo::with_text(s, b, font, u, v, t, fg, bg);
            r.len() == s.len() && same_pixel(s, r, b, x, y)
        }),
{
    lemma_shown_bound(t, t.len() as int);
    lemma_text_elsewhere(s, b, font, u as u32, v, t, t.len() as int, fg, bg, x, y, 0);
}

proof fn lemma_title(s: Seq<u8>, b: Fb, font: Seq<u8>, x: int, y: int)
    requires
        is_screen(b, s),
        b.width >= 912,
        0 <= x < b.width,
        70 <= y < b.height,
    ensures
        ({
            let t = demo::title_drawn(s, b, font);
            t.len() == s.len() && shaded(t, b, x, y, 0x80, 0, y, b.height as int)
        }),
{
    let p = Paint::Down { from: 0, len: b.height, first: 0x80, last: 0 };
    let s0 = framebuffer::painted(s, Some(b), 0, 0, b.width as int, b.height as int, p);
    lemma_painted(s, b, 0, 0, b.width as int, b.height as int, p, x, y, 0);
    lemma_shaded(s0, b, x, y, 0x80, 0, y, b.height as int);
    reveal_strlit("NoNameOS v0.1.0");
    reveal_strlit("Microkernel OS  |  Rust  |  x86_64");
    is_ascii_spec_bytes("NoNameOS v0.1.0");
    is_ascii_spec_bytes("Microkernel OS  |  Rust  |  x86_64");
    let title = "NoNameOS v0.1.0".spec_bytes();
    let subtitle = "Microkernel OS  |  Rust  |  x86_64".spec_bytes();
    let tx = demo::centred(b.width as int, title.len() as int);
    let sx = demo::centred(b.width as int, subtitle.len() as int);
    lemma_text_lines(s0, b, font, tx, 30, title, 0xFFFFFF, Some(0x80), x, y);
    let s1 = demo::with_text(s0, b, font, tx, 30, title, 0xFFFFFF, Some(0x80));
    lemma_text_lines(s1, b, font, sx, 54, subtitle, framebuffer::ACCENT, Some(0x80), x, y);
}

/// One box of the palette: inside of its frame it has its colour, and pixels in its lines
/// but not in its columns, or below its name, stay.
proof fn lemma_box(s: Seq<u8>, b: Fb, font: Seq<u8>, n: int, x: int, y: int)
    requires
        is_screen(b, s),
        b.width >= 912,
        0 <= x < b.width,
        0 <= y < b.height,
        0 < n <= 8,
        100 <= y < 160 || y >= 180,
    ensures
        ({
            let s0 = demo::boxes_drawn(s, b, font, n - 1);
            let t = demo::boxes_drawn(s, b, font, n);
            let e = left_edge(b) + 116 * (n - 1);
            s0.len() == s.len() ==> {
                &&& t.len() == s.len()
                &&& 101 <= y < 159 && e < x < e + 99 ==> has_colour(t, b, x, y, box_colour(n - 1))
                &&& y >= 180 || x < e || x >= e + 100 ==> same_pixel(s0, t, b, x, y)
            }
        }),
{
    let s0 = demo::boxes_drawn(s, b, font, n - 1);
    let e = left_edge(b) + 116 * (n - 1);
    if s0.len() == s.len() {
        let c = demo::box_color(n - 1);
        let name = demo::box_name(n - 1).spec_bytes();
        demo::lemma_names(n - 1);
        let p = Paint::Solid(c);
        lemma_painted(s0, b, e, 100, 100, 60, p, x, y, 0);
        let s1 = framebuffer::painted(s0, Some(b), e, 100, 100, 60, p);
        lemma_framed(s1, b, e, 100, 100, 60, 0xFFFFFF, 1, x, y, 0);
        let s2 = framebuffer::framed(s1, Some(b), e, 100, 100, 60, 0xFFFFFF, 1);
        lemma_text_lines(
            s2,
            b,
            font,
            e + demo::centred(100, name.len() as int),
            164,
            name,
            framebuffer::LIGHT_GRAY,
            None,
            x,
            y,
        );
    }
}

proof fn lemma_boxes(s: Seq<u8>, b: Fb, font: Seq<u8>, n: int, k: int, x: int, y: int)
    requires
        is_screen(b, s),
        b.width >= 912,
        0 <= x < b.width,
        0 <= y < b.height,
        0 <= n <= 8,
        0 <= k < 8,
        100 <= y < 160 || y >= 180,
    ensures
        ({
            let t = demo::boxes_drawn(s, b, font, n);
            let e = left_edge(b) + 116 * k;
            &&& t.len() == s.len()
            &&& y >= 180 ==> same_pixel(s, t, b, x, y)
            &&& 101 <= y < 159 && e < x < e + 99 && n > k ==> has_colour(
                t,
                b,
                x,
                y,
                box_colour(k),
            )
        }),
    decreases n,
{
    if n > 0 {
        lemma_boxes(s, b, font, n - 1, k, x, y);
        lemma_box(s, b, font, n, x, y);
    }
}

/// What is under the palette leaves what is above it alone, and so it does what is below
/// its last line; the gradient goes from blue to red.
proof fn lemma_footer(s: Seq<u8>, b: Fb, font: Seq<u8>, x: int, y: int)
    requires
        is_screen(b, s),
        b.width >= 912,
        0 <= x < b.width,
        0 <= y < b.height,
        y < 200 || 200 <= y < 230 || y >= 286,
    ensures
        ({
            let t = demo::footer_drawn(s, b, font);
            let e = left_edge(b);
            &&& t.len() == s.len()
            &&& y < 200 || y >= 286 ==> same_pixel(s, t, b, x, y)
            &&& 201 <= y < 229 && e < x < e + 911 ==> shaded(
                t,
                b,
                x,
                y,
                0x0000FF,
                0xFF0000,
                x - e,
                912,
            )
        }),
{
    let e = left_edge(b);
    let p = Paint::Across { from: e as u32, len: 912, first: 0x0000FF, last: 0xFF0000 };
    lemma_painted(s, b, e, 200, 912, 30, p, x, y, 0);
    let s1 = framebuffer::painted(s, Some(b), e, 200, 912, 30, p);
    if 200 <= y < 230 && e <= x < e + 912 {
        lemma_shaded(s1, b, x, y, 0x0000FF, 0xFF0000, x - e, 912);
    }
    lemma_framed(s1, b, e, 200, 912, 30, 0xFFFFFF, 1, x, y, 0);
    let s2 = framebuffer::framed(s1, Some(b), e, 200, 912, 30, 0xFFFFFF, 1);
    reveal_strlit("Framebuffer graphics operational.");
    reveal_strlit("Resolution:       Subsystems: OK");
    is_ascii_spec_bytes("Framebuffer graphics operational.");
    is_ascii_spec_bytes("Resolution:       Subsystems: OK");
    let info = "Framebuffer graphics operational.".spec_bytes();
    let more = "Resolution:       Subsystems: OK".spec_bytes();
    let size = text::resolution(b.width, b.height);
    lemma_text_lines(s2, b, font, e, 250, info, framebuffer::FG_LIGHT, None, x, y);
    let s3 = demo::with_text(s2, b, font, e, 250, info, framebuffer::FG_LIGHT, None);
    lemma_text_lines(s3, b, font, e, 270, more, framebuffer::OVERLAY, None, x, y);
    let s4 = demo::with_text(s3, b, font, e, 270, more, framebuffer::OVERLAY, None);
    assert(size.len() <= 20);
    lemma_text_lines(s4, b, font, e + 96, 270, size, framebuffer::ACCENT, None, x, y);
}

/// The picture has a palette of eight boxes, 100 pixels wide and 116 apart, each in its
/// colour inside of its frame; under it a gradient from blue to red; and below the last
/// line of text a background from dark blue at the top of the screen to black.
pub proof fn law_picture_has_its_colours(
    fb: &Fb,
    screen: &mut [u8],
    font: &[u8],
    k: int,
    x: int,
    y: int,
)
    requires
        is_screen(*fb, old(screen)@),
        fb.width >= 912,
        0 <= k < 8,
        0 <= x < fb.width,
        0 <= y < fb.height,
        call_ensures(demo::draw_demo, (fb, screen, font), ()),
    ensures
        ({
            let t = final(screen)@;
            let e = left_edge(*fb);
            &&& 101 <= y < 159 && e + 116 * k < x < e + 116 * k + 99 ==> has_colour(
                t,
                *fb,
                x,
                y,
                box_colour(k),
            )
            &&& 201 <= y < 229 && e < x < e + 911 ==> shaded(
                t,
                *fb,
                x,
                y,
                0x0000FF,
                0xFF0000,
                x - e,
                912,
            )
            &&& y >= 286 ==> shaded(t, *fb, x, y, 0x80, 0, y, fb.height as int)
        }),
{
    let b = *fb;
    let s = old(screen)@;
    if 100 <= y < 160 || 200 <= y < 230 || y >= 286 {
        let s1 = demo::title_drawn(s, b, font@);
        lemma_title(s, b, font@, x, y);
        let s2 = demo::boxes_drawn(s1, b, font@, 8);
        lemma_boxes(s1, b, font@, 8, k, x, y);
        lemma_footer(s2, b, font@, x, y);
    }
}

} // verus!
