//! The picture that the kernel shows once it is up.

use vstd::prelude::*;
use vstd::string::*;
use crate::framebuffer;
use crate::framebuffer::{Fb, Paint, CHAR_WIDTH};
use crate::search;
use crate::text;

verus! {

/// Boxes of the palette.
pub const PALETTE_SIZE: u32 = 8;

pub const BOX_WIDTH: u32 = 100;

pub const BOX_HEIGHT: u32 = 60;

/// From the left of one box to that of the next.
pub const BOX_STEP: u32 = 116;

/// Width of the palette.
pub const PALETTE_WIDTH: u32 = 912;

pub const PALETTE_TOP: u32 = 100;

pub const GRADIENT_TOP: u32 = 200;

pub const GRADIENT_HEIGHT: u32 = 30;

pub const INFO_TOP: u32 = 250;

pub const TITLE_TOP: u32 = 30;

pub const SUBTITLE_TOP: u32 = 54;

/// The colour of a box of the palette.
pub open spec fn box_color(i: int) -> u32 {
    if i == 0 {
        framebuffer::RED
    } else if i == 1 {
        framebuffer::GREEN
    } else if i == 2 {
        framebuffer::BLUE
    } else if i == 3 {
        framebuffer::CYAN
    } else if i == 4 {
        framebuffer::YELLOW
    } else if i == 5 {
        framebuffer::MAGENTA
    } else if i == 6 {
        framebuffer::ORANGE
    } else {
        framebuffer::WHITE
    }
}

/// The name of a box of the palette.
pub open spec fn box_name(i: int) -> &'static str {
    if i == 0 {
        "RED"
    } else if i == 1 {
        "GREEN"
    } else if i == 2 {
        "BLUE"
    } else if i == 3 {
        "CYAN"
    } else if i == 4 {
        "YELLOW"
    } else if i == 5 {
        "MAGENTA"
    } else if i == 6 {
        "ORANGE"
    } else {
        "WHITE"
    }
}

/// The colour and the name of a box of the palette.
fn palette(i: u32) -> (r: (u32, &'static str))
    ensures
        r.0 == box_color(i as int),
        r.1 == box_name(i as int),
{
    match i {
        0 => (framebuffer::RED, "RED"),
        1 => (framebuffer::GREEN, "GREEN"),
        2 => (framebuffer::BLUE, "BLUE"),
        3 => (framebuffer::CYAN, "CYAN"),
        4 => (framebuffer::YELLOW, "YELLOW"),
        5 => (framebuffer::MAGENTA, "MAGENTA"),
        6 => (framebuffer::ORANGE, "ORANGE"),
        _ => (framebuffer::WHITE, "WHITE"),
    }
}

/// The names fit their boxes.
pub proof fn lemma_names(i: int)
    ensures
        box_name(i).spec_bytes().len() <= 7,
{
    reveal_strlit("RED");
    reveal_strlit("GREEN");
    reveal_strlit("BLUE");
    reveal_strlit("CYAN");
    reveal_strlit("YELLOW");
    reveal_strlit("MAGENTA");
    reveal_strlit("ORANGE");
    reveal_strlit("WHITE");
    is_ascii_spec_bytes("RED");
    is_ascii_spec_bytes("GREEN");
    is_ascii_spec_bytes("BLUE");
    is_ascii_spec_bytes("CYAN");
    is_ascii_spec_bytes("YELLOW");
    is_ascii_spec_bytes("MAGENTA");
    is_ascii_spec_bytes("ORANGE");
    is_ascii_spec_bytes("WHITE");
}

/// No more characters are drawn than there are bytes.
proof fn lemma_drawn(b: Seq<u8>)
    ensures
        0 <= framebuffer::drawn_count(b, b.len() as int) <= b.len(),
{
    search::lemma_count_bound(b.len(), |i: int| b[i] != 0x0A);
}

/// A text drawn on the screen.
pub open spec fn with_text(
    s: Seq<u8>,
    fb: Fb,
    font: Seq<u8>,
    x: int,
    y: u32,
    b: Seq<u8>,
    fg: u32,
    bg: Option<u32>,
) -> Seq<u8> {
    framebuffer::text_drawn(s, Some(fb), font, x, y, b, b.len() as int, fg, bg)
}

/// Where a text of `n` bytes starts that stands in the middle of `width`.
pub open spec fn centred(width: int, n: int) -> int {
    (width - n * CHAR_WIDTH) / 2
}

/// The screen with the first `n` boxes of the palette.
pub open spec fn boxes_drawn(s: Seq<u8>, fb: Fb, font: Seq<u8>, n: int) -> Seq<u8>
    decreases n,
{
    if n <= 0 {
        s
    } else {
        let before = boxes_drawn(s, fb, font, n - 1);
        let x = palette_left(fb) + (n - 1) * BOX_STEP;
        let name = box_name(n - 1).spec_bytes();
        let s1 = framebuffer::painted(
            before,
            Some(fb),
            x,
            PALETTE_TOP as int,
            BOX_WIDTH as int,
            BOX_HEIGHT as int,
            Paint::Solid(box_color(n - 1)),
        );
        let s2 = framebuffer::framed(
            s1,
            Some(fb),
            x,
            PALETTE_TOP as int,
            BOX_WIDTH as int,
            BOX_HEIGHT as int,
            framebuffer::WHITE,
            1,
        );
        with_text(
            s2,
            fb,
            font,
            x + centred(BOX_WIDTH as int, name.len() as int),
            164,
            name,
            framebuffer::LIGHT_GRAY,
            None,
        )
    }
}

/// The left edge of the palette.
pub open spec fn palette_left(fb: Fb) -> int {
    (fb.width - PALETTE_WIDTH) / 2
}

/// The title over its background.
pub open spec fn title_drawn(s: Seq<u8>, fb: Fb, font: Seq<u8>) -> Seq<u8> {
    let title = "NoNameOS v0.1.0".spec_bytes();
    let subtitle = "Microkernel OS  |  Rust  |  x86_64".spec_bytes();
    let s0 = if fb.height == 0 {
        s
    } else {
        framebuffer::painted(
            s,
            Some(fb),
            0,
            0,
            fb.width as int,
            fb.height as int,
            Paint::Down {
                from: 0,
                len: fb.height,
                first: framebuffer::DARK_BLUE,
                last: framebuffer::BLACK,
            },
        )
    };
    let s1 = with_text(
        s0,
        fb,
        font,
        centred(fb.width as int, title.len() as int),
        TITLE_TOP,
        title,
        framebuffer::WHITE,
        Some(framebuffer::DARK_BLUE),
    );
    with_text(
        s1,
        fb,
        font,
        centred(fb.width as int, subtitle.len() as int),
        SUBTITLE_TOP,
        subtitle,
        framebuffer::ACCENT,
        Some(framebuffer::DARK_BLUE),
    )
}

/// The gradient under the palette, and the lines of text under it.
pub open spec fn footer_drawn(s: Seq<u8>, fb: Fb, font: Seq<u8>) -> Seq<u8> {
    let x = palette_left(fb);
    let s1 = framebuffer::painted(
        s,
        Some(fb),
        x,
        GRADIENT_TOP as int,
        PALETTE_WIDTH as int,
        GRADIENT_HEIGHT as int,
        Paint::Across {
            from: x as u32,
            len: PALETTE_WIDTH,
            first: framebuffer::BLUE,
            last: framebuffer::RED,
        },
    );
    let s2 = framebuffer::framed(
        s1,
        Some(fb),
        x,
        GRADIENT_TOP as int,
        PALETTE_WIDTH as int,
        GRADIENT_HEIGHT as int,
        framebuffer::WHITE,
        1,
    );
    let s3 = with_text(
        s2,
        fb,
        font,
        x,
        INFO_TOP,
        "Framebuffer graphics operational.".spec_bytes(),
        framebuffer::FG_LIGHT,
        None,
    );
    let s4 = with_text(
        s3,
        fb,
        font,
        x,
        270,
        "Resolution:       Subsystems: OK".spec_bytes(),
        framebuffer::OVERLAY,
        None,
    );
    with_text(
        s4,
        fb,
        font,
        x + 12 * CHAR_WIDTH,
        270,
        text::resolution(fb.width, fb.height),
        framebuffer::ACCENT,
        None,
    )
}

/// The whole picture.
pub open spec fn demo_drawn(s: Seq<u8>, fb: Fb, font: Seq<u8>) -> Seq<u8> {
    footer_drawn(
        boxes_drawn(title_drawn(s, fb, font), fb, font, PALETTE_SIZE as int),
        fb,
        font,
    )
}

/// Draws the background and the title.
fn draw_title(fb: &Fb, screen: &mut [u8], font: &[u8])
    requires
        fb.fits(old(screen)@.len() as int),
        fb.width >= PALETTE_WIDTH,
    ensures
        final(screen)@.len() == old(screen)@.len(),
        final(screen)@ == title_drawn(old(screen)@, *fb, font@),
{
    let on: Option<Fb> = Some(*fb);
    framebuffer::fill_gradient_v(
        &on,
        screen,
        0,
        0,
        fb.width,
        fb.height,
        framebuffer::DARK_BLUE,
        framebuffer::BLACK,
    );
    let title: &str = "NoNameOS v0.1.0";
    let subtitle: &str = "Microkernel OS  |  Rust  |  x86_64";
    proof {
        reveal_strlit("NoNameOS v0.1.0");
        reveal_strlit("Microkernel OS  |  Rust  |  x86_64");
        is_ascii_spec_bytes("NoNameOS v0.1.0");
        is_ascii_spec_bytes("Microkernel OS  |  Rust  |  x86_64");
        lemma_drawn(title.spec_bytes());
        lemma_drawn(subtitle.spec_bytes());
    }
    let title_x: u32 = (fb.width - title.as_bytes().len() as u32 * CHAR_WIDTH) / 2;
    framebuffer::draw_string(
        &on,
        screen,
        font,
        title_x,
        TITLE_TOP,
        title,
        framebuffer::WHITE,
        framebuffer::DARK_BLUE,
    );
    let sub_x: u32 = (fb.width - subtitle.as_bytes().len() as u32 * CHAR_WIDTH) / 2;
    framebuffer::draw_string(
        &on,
        screen,
        font,
        sub_x,
        SUBTITLE_TOP,
        subtitle,
        framebuffer::ACCENT,
        framebuffer::DARK_BLUE,
    );
}

/// Draws the palette.
fn draw_boxes(fb: &Fb, screen: &mut [u8], font: &[u8])
    requires
        fb.fits(old(screen)@.len() as int),
        fb.width >= PALETTE_WIDTH,
    ensures
        final(screen)@.len() == old(screen)@.len(),
        final(screen)@ == boxes_drawn(old(screen)@, *fb, font@, PALETTE_SIZE as int),
{
    let on: Option<Fb> = Some(*fb);
    let start_x: u32 = (fb.width - PALETTE_WIDTH) / 2;
    let mut i: u32 = 0;
    while i < PALETTE_SIZE
        invariant
            i <= PALETTE_SIZE,
            screen@.len() == old(screen)@.len(),
            fb.fits(screen@.len() as int),
            fb.width >= PALETTE_WIDTH,
            on == Some(*fb),
            start_x == palette_left(*fb),
            screen@ == boxes_drawn(old(screen)@, *fb, font@, i as int),
        decreases PALETTE_SIZE - i,
    {
        let (color, name) = palette(i);
        proof {
            lemma_names(i as int);
            lemma_drawn(name.spec_bytes());
        }
        let x: u32 = start_x + i * BOX_STEP;
        framebuffer::fill_rect(&on, screen, x, PALETTE_TOP, BOX_WIDTH, BOX_HEIGHT, color);
        framebuffer::draw_rect(
            &on,
            screen,
            x,
            PALETTE_TOP,
            BOX_WIDTH,
            BOX_HEIGHT,
            framebuffer::WHITE,
            1,
        );
        let name_x: u32 = x + (BOX_WIDTH - name.as_bytes().len() as u32 * CHAR_WIDTH) / 2;
        framebuffer::draw_string_transparent(
            &on,
            screen,
            font,
            name_x,
            PALETTE_TOP + BOX_HEIGHT + 4,
            name,
            framebuffer::LIGHT_GRAY,
        );
        i = i + 1;
    }
}

/// Draws the gradient and the lines of text under it.
fn draw_footer(fb: &Fb, screen: &mut [u8], font: &[u8])
    requires
        fb.fits(old(screen)@.len() as int),
        fb.width >= PALETTE_WIDTH,
    ensures
        final(screen)@.len() == old(screen)@.len(),
        final(screen)@ == footer_drawn(old(screen)@, *fb, font@),
{
    let on: Option<Fb> = Some(*fb);
    let x: u32 = (fb.width - PALETTE_WIDTH) / 2;
    framebuffer::fill_gradient_h(
        &on,
        screen,
        x,
        GRADIENT_TOP,
        PALETTE_WIDTH,
        GRADIENT_HEIGHT,
        framebuffer::BLUE,
        framebuffer::RED,
    );
    framebuffer::draw_rect(
        &on,
        screen,
        x,
        GRADIENT_TOP,
        PALETTE_WIDTH,
        GRADIENT_HEIGHT,
        framebuffer::WHITE,
        1,
    );
    proof {
        reveal_strlit("Framebuffer graphics operational.");
        reveal_strlit("Resolution:       Subsystems: OK");
        is_ascii_spec_bytes("Framebuffer graphics operational.");
        is_ascii_spec_bytes("Resolution:       Subsystems: OK");
        lemma_drawn("Framebuffer graphics operational.".spec_bytes());
        lemma_drawn("Resolution:       Subsystems: OK".spec_bytes());
        lemma_drawn(text::resolution(fb.width, fb.height));
    }
    framebuffer::draw_string_transparent(
        &on,
        screen,
        font,
        x,
        INFO_TOP,
        "Framebuffer graphics operational.",
        framebuffer::FG_LIGHT,
    );
    framebuffer::draw_string_transparent(
        &on,
        screen,
        font,
        x,
        INFO_TOP + 20,
        "Resolution:       Subsystems: OK",
        framebuffer::OVERLAY,
    );
    let mut buf: [u8; text::RESOLUTION_SIZE] = [0u8; text::RESOLUTION_SIZE];
    let size: &str = text::format_resolution(fb.width, fb.height, &mut buf);
    framebuffer::draw_string_transparent(
        &on,
        screen,
        font,
        x + 12 * CHAR_WIDTH,
        INFO_TOP + 20,
        size,
        framebuffer::ACCENT,
    );
}

/// Draws the picture on a screen that is wide enough for it.
pub fn draw_demo(fb: &Fb, screen: &mut [u8], font: &[u8])
    requires
        fb.fits(old(screen)@.len() as int),
        fb.width >= PALETTE_WIDTH,
    ensures
        final(screen)@.len() == old(screen)@.len(),
        final(screen)@ == demo_drawn(old(screen)@, *fb, font@),
{
    draw_title(fb, screen, font);
    draw_boxes(fb, screen, font);
    draw_footer(fb, screen, font);
}

} // verus!
