use nonameos::demo;
use nonameos::framebuffer::{self, Fb};
use nonameos::multiboot2::{self, FramebufferInfo, FramebufferTag, FramebufferType};
use nonameos::multiboot2::{TagHeader, TagIterator};
use nonameos::shared;
use nonameos::vga::{self, Color, ColorCode, Writer};

fn small() -> (Option<Fb>, Vec<u8>) {
    let fb = Fb { addr: 0xE000_0000, pitch: 40, width: 8, height: 6, bpp: 32 };
    (Some(fb), vec![0u8; 240])
}

fn pixel(s: &[u8], x: usize, y: usize) -> u32 {
    let o = y * 40 + x * 4;
    framebuffer::rgb(s[o + 2], s[o + 1], s[o])
}

/// The pixels of the small screen that are not black.
fn lit(s: &[u8]) -> Vec<(usize, usize)> {
    let mut r = vec![];
    for y in 0..6 {
        for x in 0..8 {
            if pixel(s, x, y) != 0 {
                r.push((x, y));
            }
        }
    }
    r
}

#[test]
fn a_colour_has_its_parts() {
    assert_eq!(framebuffer::rgb(0x12, 0x34, 0x56), 0x12_3456);
    assert_eq!(framebuffer::rgb(255, 255, 255), framebuffer::WHITE);
}

#[test]
fn a_blend_lies_between_its_colours() {
    assert_eq!(framebuffer::blend(0x10_2030, 0xF0_E0D0, 0), 0x10_2030);
    assert_eq!(framebuffer::blend(0x10_2030, 0xF0_E0D0, 255), 0xF0_E0D0);
    assert_eq!(framebuffer::blend(0x00_0000, 0xFF_FFFF, 128), 0x80_8080);
    assert_eq!(framebuffer::blend(0x00_00FF, 0xFF_0000, 51), 0x33_00CC);
}

#[test]
fn a_screen_is_taken_over_from_the_boot_loader() {
    let mut fb = None;
    assert!(!framebuffer::is_available(&fb));
    assert_eq!((framebuffer::width(&fb), framebuffer::height(&fb)), (0, 0));
    let info = FramebufferInfo {
        addr: 0xFD00_0000,
        pitch: 4096,
        width: 1024,
        height: 768,
        bpp: 32,
        fb_type: FramebufferType::Rgb,
    };
    framebuffer::init(&mut fb, &info);
    assert!(framebuffer::is_available(&fb));
    assert_eq!((framebuffer::width(&fb), framebuffer::height(&fb)), (1024, 768));
    assert_eq!(fb.unwrap().addr, 0xFD00_0000);
}

#[test]
fn a_pixel_is_set_and_others_stay() {
    let (fb, mut s) = small();
    framebuffer::put_pixel(&fb, &mut s, 3, 2, 0x11_2233);
    assert_eq!(s[92..96], [0x33, 0x22, 0x11, 0]);
    assert_eq!(lit(&s), vec![(3, 2)]);
    framebuffer::put_pixel(&fb, &mut s, 8, 0, 0xFF);
    framebuffer::put_pixel(&fb, &mut s, 0, 6, 0xFF);
    framebuffer::put_pixel(&None, &mut s, 0, 0, 0xFF);
    assert_eq!(lit(&s), vec![(3, 2)]);
}

#[test]
fn clearing_paints_every_pixel() {
    let (fb, mut s) = small();
    framebuffer::clear(&fb, &mut s, 0x01_0203);
    for y in 0..6 {
        for x in 0..8 {
            assert_eq!(pixel(&s, x, y), 0x01_0203);
        }
        assert_eq!(s[y * 40 + 32], 0);
    }
}

#[test]
fn a_rectangle_is_cut_at_the_edges() {
    let (fb, mut s) = small();
    framebuffer::fill_rect(&fb, &mut s, 6, 4, 10, 10, 0xFF);
    assert_eq!(lit(&s), vec![(6, 4), (7, 4), (6, 5), (7, 5)]);
    let (fb, mut s) = small();
    framebuffer::fill_rect(&fb, &mut s, 8, 0, 3, 3, 0xFF);
    assert!(lit(&s).is_empty());
}

#[test]
fn a_frame_leaves_its_inside_alone() {
    let (fb, mut s) = small();
    framebuffer::draw_rect(&fb, &mut s, 1, 1, 4, 4, 0xFF, 1);
    assert_eq!(
        lit(&s),
        vec![
            (1, 1), (2, 1), (3, 1), (4, 1),
            (1, 2), (4, 2),
            (1, 3), (4, 3),
            (1, 4), (2, 4), (3, 4), (4, 4),
        ]
    );
}

#[test]
fn lines_have_their_length() {
    let (fb, mut s) = small();
    framebuffer::draw_hline(&fb, &mut s, 2, 0, 3, 0xFF);
    framebuffer::draw_vline(&fb, &mut s, 7, 4, 9, 0xFF);
    assert_eq!(lit(&s), vec![(2, 0), (3, 0), (4, 0), (7, 4), (7, 5)]);
}

#[test]
fn a_gradient_stays_between_its_colours() {
    let (fb, mut s) = small();
    framebuffer::fill_gradient_h(&fb, &mut s, 0, 0, 8, 1, 0x00_0080, 0x80_0000);
    let row: Vec<u32> = (0..8).map(|x| pixel(&s, x, 0)).collect();
    assert_eq!(
        row,
        vec![
            0x00_0080, 0x10_0070, 0x20_0060, 0x30_0050,
            0x40_0040, 0x50_0030, 0x60_0020, 0x70_0010,
        ]
    );
    framebuffer::fill_gradient_v(&fb, &mut s, 0, 2, 1, 4, 0x10_0000, 0x20_0000);
    let column: Vec<u32> = (2..6).map(|y| pixel(&s, 0, y)).collect();
    assert_eq!(column, vec![0x10_0000, 0x14_0000, 0x18_0000, 0x1C_0000]);
}

/// A font in which each character holds its number in every line.
fn font() -> Vec<u8> {
    let mut f = vec![];
    for ch in 32..128u32 {
        for _ in 0..16 {
            f.push(ch as u8);
        }
    }
    f
}

#[test]
fn a_character_is_drawn_from_the_font() {
    let (fb, mut s) = small();
    framebuffer::draw_char(&fb, &mut s, &font(), 0, 0, b'A', 0xFF_0000, 0x00_00FF);
    let row: Vec<bool> = (0..8).map(|x| pixel(&s, x, 5) == 0xFF_0000).collect();
    assert_eq!(row, vec![false, true, false, false, false, false, false, true]);
    assert_eq!(pixel(&s, 0, 0), 0x00_00FF);
}

#[test]
fn a_transparent_character_keeps_the_background() {
    let (fb, mut s) = small();
    framebuffer::draw_char_transparent(&fb, &mut s, &font(), 0, 5, b'A', 0xFF_0000);
    assert_eq!(lit(&s), vec![(1, 5), (7, 5)]);
    framebuffer::draw_char_transparent(&fb, &mut s, &[], 0, 0, b'A', 0xFF_0000);
    assert_eq!(lit(&s), vec![(1, 5), (7, 5)]);
}

#[test]
fn text_is_drawn_in_a_row_without_line_breaks() {
    let fb = Some(Fb { addr: 0, pitch: 96, width: 24, height: 16, bpp: 32 });
    let mut one = vec![0u8; 96 * 16];
    let mut two = one.clone();
    framebuffer::draw_string(&fb, &mut one, &font(), 0, 0, "A\nB", 0xFF, 0x00);
    framebuffer::draw_char(&fb, &mut two, &font(), 0, 0, b'A', 0xFF, 0x00);
    framebuffer::draw_char(&fb, &mut two, &font(), 8, 0, b'B', 0xFF, 0x00);
    assert_eq!(one, two);
    let mut three = vec![0u8; 96 * 16];
    framebuffer::draw_string_transparent(&fb, &mut three, &font(), 0, 0, "AB", 0xFF);
    assert_eq!(one, three);
}

#[test]
fn the_demo_shows_the_palette_and_the_gradient() {
    let fb = Fb { addr: 0, pitch: 4096, width: 1024, height: 768, bpp: 32 };
    let mut s = vec![0u8; 4096 * 768];
    demo::draw_demo(&fb, &mut s, &font());
    let at = |x: usize, y: usize| {
        let o = y * 4096 + x * 4;
        framebuffer::rgb(s[o + 2], s[o + 1], s[o])
    };
    assert_eq!(at(0, 0), framebuffer::DARK_BLUE);
    // The palette starts at (1024 - 912) / 2.
    assert_eq!(at(60, 110), framebuffer::RED);
    assert_eq!(at(60 + 116, 110), framebuffer::GREEN);
    assert_eq!(at(60 + 7 * 116, 110), framebuffer::WHITE);
    assert_eq!(at(58, 210), 0x00_00FF);
    assert_eq!(at(56 + 456, 210), 0x7F_0080);
}

#[test]
fn geometry_is_checked_against_the_memory() {
    let (fb, _) = small();
    let fb = fb.unwrap();
    assert!(fb.fits_in(240));
    assert!(fb.fits_in(231));
    assert!(!fb.fits_in(230));
    let none = Fb { width: 0, ..fb };
    assert!(none.fits_in(0));
    assert_eq!(framebuffer::geometry_within(&Some(fb), 231), Some(fb));
    assert_eq!(framebuffer::geometry_within(&Some(fb), 230), None);
    assert_eq!(framebuffer::geometry_within(&None, 240), None);
}

#[test]
fn a_shared_screen_hands_out_its_geometry() {
    let fb = spin::Mutex::new(None);
    assert_eq!(shared::screen_geometry(&fb, 1000), None);
    let info = FramebufferInfo {
        addr: 7,
        pitch: 40,
        width: 8,
        height: 6,
        bpp: 32,
        fb_type: FramebufferType::Rgb,
    };
    shared::init_screen(&fb, &info);
    assert_eq!(shared::screen_geometry(&fb, 240).unwrap().pitch, 40);
    assert_eq!(shared::screen_geometry(&fb, 100), None);
}

#[test]
fn colours_have_their_numbers() {
    assert_eq!(Color::Black.number(), 0);
    assert_eq!(Color::LightGreen.number(), 10);
    assert_eq!(Color::White.number(), 15);
    assert_eq!(ColorCode::new(Color::Yellow, Color::Blue).0, 0x1E);
}

#[test]
fn text_is_shown_in_its_line() {
    let mut w = Writer::new();
    let mut s = vec![0u16; 2000];
    w.clear(&mut s);
    assert!(s.iter().all(|c| *c == 0x0A20));
    w.write_string(&mut s, "Hi\n\u{e9}!");
    assert_eq!(s[0], 0x0A48);
    assert_eq!(s[1], 0x0A69);
    assert_eq!(s[80..84], [0x0AFE, 0x0AFE, 0x0A21, 0x0A20]);
}

#[test]
fn a_full_line_goes_on_in_the_next_one() {
    let mut w = Writer::new();
    let mut s = vec![0u16; 2000];
    w.clear(&mut s);
    for _ in 0..81 {
        w.write_byte(&mut s, b'x');
    }
    assert_eq!(s[79], 0x0A78);
    assert_eq!(s[80], 0x0A78);
    assert_eq!(s[81], 0x0A20);
}

#[test]
fn lines_move_up_at_the_bottom() {
    let mut w = Writer::new();
    let mut s = vec![0u16; 2000];
    vga::clear_screen(&mut w, &mut s);
    for i in 0..25u8 {
        w.write_byte(&mut s, b'a' + i);
        w.write_byte(&mut s, b'\n');
    }
    assert_eq!(s[0], 0x0A00 + b'b' as u16);
    assert_eq!(s[23 * 80], 0x0A00 + b'y' as u16);
    assert!(s[24 * 80..].iter().all(|c| *c == 0x0A20));
}

#[test]
fn a_shared_writer_goes_on_where_it_stopped() {
    let w = spin::Mutex::new(Writer::new());
    let mut s = vec![0u16; 2000];
    shared::clear_screen(&w, &mut s);
    shared::write_string(&w, &mut s, "a");
    shared::write_string(&w, &mut s, "b");
    assert_eq!(s[..3], [0x0A61, 0x0A62, 0x0A20]);
}

fn tag(block: &mut Vec<u8>, tag_type: u32, body: &[u8]) {
    block.extend_from_slice(&tag_type.to_le_bytes());
    block.extend_from_slice(&(8 + body.len() as u32).to_le_bytes());
    block.extend_from_slice(body);
    while block.len() % 8 != 0 {
        block.push(0);
    }
}

fn sealed(mut block: Vec<u8>) -> Vec<u8> {
    tag(&mut block, 0, &[]);
    let n = (block.len() as u32).to_le_bytes();
    block[..4].copy_from_slice(&n);
    block
}

fn screen_body(fb_type: u8) -> Vec<u8> {
    let mut b = vec![];
    b.extend_from_slice(&0xFD00_0000u64.to_le_bytes());
    b.extend_from_slice(&4096u32.to_le_bytes());
    b.extend_from_slice(&1024u32.to_le_bytes());
    b.extend_from_slice(&768u32.to_le_bytes());
    b.extend_from_slice(&[32, fb_type, 0]);
    b
}

#[test]
fn the_first_tag_of_a_type_is_found() {
    let mut b = vec![0u8; 8];
    tag(&mut b, 1, b"first\0");
    tag(&mut b, 8, &screen_body(1));
    tag(&mut b, 1, b"second\0");
    let b = sealed(b);
    assert_eq!(multiboot2::find_cmdline(&b), Some("first"));
    assert_eq!(
        multiboot2::find_framebuffer(&b),
        Some(FramebufferInfo {
            addr: 0xFD00_0000,
            pitch: 4096,
            width: 1024,
            height: 768,
            bpp: 32,
            fb_type: FramebufferType::Rgb,
        })
    );
    let mut t = TagIterator::new(&b);
    assert_eq!(t.next(&b), Some(8));
    assert_eq!(t.next(&b), Some(24));
    assert_eq!(t.next(&b), Some(56));
    assert_eq!(t.next(&b), None);
    assert_eq!(TagHeader::read(&b, 24), TagHeader { tag_type: 8, size: 31 });
    assert_eq!(FramebufferTag::read(&b, 24).width, 1024);
}

#[test]
fn screens_of_every_type_are_told_apart() {
    for (n, t) in [
        (0, FramebufferType::Indexed),
        (1, FramebufferType::Rgb),
        (2, FramebufferType::EgaText),
        (9, FramebufferType::Unknown(9)),
    ] {
        let mut b = vec![0u8; 8];
        tag(&mut b, 8, &screen_body(n));
        assert_eq!(multiboot2::find_framebuffer(&sealed(b)).unwrap().fb_type, t);
    }
}

#[test]
fn a_block_without_the_tag_gives_nothing() {
    let b = sealed(vec![0u8; 8]);
    assert_eq!(multiboot2::find_framebuffer(&b), None);
    assert_eq!(multiboot2::find_cmdline(&b), None);
    assert_eq!(multiboot2::find_cmdline(&[]), None);
    let mut c = vec![0u8; 8];
    tag(&mut c, 1, &[0xFF, 0xFE, 0]);
    assert_eq!(multiboot2::find_cmdline(&sealed(c)), None);
}

#[test]
fn the_boot_loader_is_known_by_its_number() {
    assert!(multiboot2::is_multiboot2(0x36d7_6289));
    assert!(!multiboot2::is_multiboot2(0x2bad_b002));
}
