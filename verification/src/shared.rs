//! The keyboard and the screens on state that several processors share.
//!
//! Each function takes the locks for one step and works on whatever the state is
//! then. What the steps do is stated in `keyboard`, `vga` and `framebuffer`.

use vstd::prelude::*;
use vstd::string::*;
use crate::framebuffer;
use crate::framebuffer::Fb;
use crate::keyboard;
use crate::keyboard::{Echo, InputBuffer, KeyboardState};
use crate::lock;
use crate::multiboot2::FramebufferInfo;
use crate::vga;
use crate::vga::{Page, Writer, VGA_CELLS};

verus! {

/// Takes a code from the keyboard. Returns what the screen shows of it: the
/// small or the large character of the key.
pub fn handle_scancode(
    state: &spin::Mutex<KeyboardState>,
    input: &spin::Mutex<InputBuffer>,
    scancode: u8,
) -> (r: Echo)
    ensures
        r == keyboard::echo_of(keyboard::char_of(false, scancode)) || r == keyboard::echo_of(
            keyboard::char_of(true, scancode),
        ),
{
    let mut s = lock::lock(state);
    let mut i = lock::lock(input);
    keyboard::handle_scancode(lock::guarded(&mut s), lock::guarded(&mut i), scancode)
}

/// Reads the character that has waited longest. It may be any, or none: that rests
/// on what the buffer holds, so nothing is stated of it. See `keyboard::read_char`.
pub fn read_char(input: &spin::Mutex<InputBuffer>) -> (r: Option<u8>) {
    let mut i = lock::lock(input);
    keyboard::read_char(lock::guarded(&mut i))
}

/// Whether a character waits. That rests on what the buffer holds, so nothing is
/// stated of it. See `keyboard::has_input`.
pub fn has_input(input: &spin::Mutex<InputBuffer>) -> (r: bool) {
    let mut i = lock::lock(input);
    keyboard::has_input(lock::guarded(&mut i))
}

/// Clears the text screen: every cell is blank, in one colour.
pub fn clear_screen(writer: &spin::Mutex<Writer>, screen: &mut [u16])
    requires
        old(screen)@.len() == VGA_CELLS,
    ensures
        final(screen)@.len() == VGA_CELLS,
        exists|color: u8| #[trigger] vga::all_blank(final(screen)@, color),
{
    let mut guard = lock::lock(writer);
    let w: &mut Writer = lock::guarded(&mut guard);
    let ghost p = w.page(screen@);
    vga::clear_screen(w, screen);
    assert(vga::all_blank(screen@, p.color));
}

/// Writes a text to the text screen, from the place on where text goes on, in
/// one colour.
pub fn write_string(writer: &spin::Mutex<Writer>, screen: &mut [u16], s: &str)
    requires
        old(screen)@.len() == VGA_CELLS,
    ensures
        final(screen)@.len() == VGA_CELLS,
        exists|p: Page|
            p.wf() && p.cells == old(screen)@ && final(screen)@ == (#[trigger] p.text_written(
                s.spec_bytes(),
                s.spec_bytes().len() as int,
            )).cells,
{
    let mut guard = lock::lock(writer);
    let w: &mut Writer = lock::guarded(&mut guard);
    let ghost p = w.page(screen@);
    w.write_string(screen, s);
    assert(p.wf() && p.cells == old(screen)@);
    assert(screen@ == p.text_written(s.spec_bytes(), s.spec_bytes().len() as int).cells);
}

/// Takes the geometry of the screen over. It goes behind the lock, of which nothing
/// is stated. See `framebuffer::init`.
pub fn init_screen(fb: &spin::Mutex<Option<Fb>>, info: &FramebufferInfo) {
    let mut guard = lock::lock(fb);
    framebuffer::init(lock::guarded(&mut guard), info);
}

/// The geometry of the screen, if there is one and every pixel of it lies in a
/// memory of `len` bytes.
pub fn screen_geometry(fb: &spin::Mutex<Option<Fb>>, len: usize) -> (r: Option<Fb>)
    ensures
        r matches Some(b) ==> b.fits(len as int),
{
    let mut guard = lock::lock(fb);
    framebuffer::geometry_within(lock::guarded(&mut guard), len)
}

} // verus!
