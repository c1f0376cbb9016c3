use nonameos::gdt::{self, Gdt, GdtEntry, Tss};
use nonameos::idt::{self, Action, Idt, IdtEntry, InterruptFrame, HANDLER_COUNT};
use nonameos::keyboard::{self, Echo, InputBuffer, KeyboardState};
use nonameos::pic::{self, PortWrite};
use nonameos::shared;
use nonameos::text;

#[test]
fn a_descriptor_gives_back_its_parts() {
    let e = GdtEntry::new(0x1234_5678, 0xA_BCDE, 0x9A, 0xC);
    assert_eq!(e.base_low, 0x5678);
    assert_eq!(e.base_mid, 0x34);
    assert_eq!(e.base_high, 0x12);
    assert_eq!(e.limit_low, 0xBCDE);
    assert_eq!(e.granularity, 0xCA);
    assert_eq!(e.access, 0x9A);
    assert!(GdtEntry::null() == GdtEntry::new(0, 0, 0, 0));
}

#[test]
fn the_table_holds_the_segments_in_their_order() {
    let g = Gdt::new();
    let access: Vec<u8> = g.entries.iter().map(|e| e.access).collect();
    assert_eq!(access, vec![0, 0x9A, 0x92, 0xF2, 0xFA, 0, 0]);
    let high: Vec<u8> = g.entries.iter().map(|e| e.granularity).collect();
    assert_eq!(high, vec![0, 0xAF, 0xCF, 0xCF, 0xAF, 0, 0]);
    assert_eq!(g.tss.iomap_base, 104);
    assert_eq!(Tss::empty().rsp0, 0);
}

#[test]
fn the_task_state_segment_is_entered_with_its_address() {
    let mut g = Gdt::new();
    let p = gdt::init(&mut g, 0x5000, 0x1122_3344_5566_7788, 0x9000);
    assert!(p.limit == 55 && p.base == 0x5000);
    let low = g.entries[5];
    assert_eq!(low.limit_low, 103);
    assert_eq!(low.base_low, 0x7788);
    assert_eq!(low.base_mid, 0x66);
    assert_eq!(low.base_high, 0x55);
    assert_eq!(low.access, 0x89);
    let high = g.entries[6];
    assert_eq!(high.limit_low, 0x3344);
    assert_eq!(high.base_low, 0x1122);
    assert_eq!(gdt::get_tss_rsp0(&g), 0x9000 + 16_384);
    gdt::set_tss_rsp0(&mut g, 0x7000);
    assert_eq!(gdt::get_tss_rsp0(&g), 0x7000);
}

#[test]
fn a_gate_leads_to_its_handler() {
    let mut e = IdtEntry::empty();
    assert_eq!(e.type_attr, 0);
    e.set_handler(0x1122_3344_5566_7788, 0x08, 0x8E);
    assert_eq!(e.offset_low, 0x7788);
    assert_eq!(e.offset_mid, 0x5566);
    assert_eq!(e.offset_high, 0x1122_3344);
    assert_eq!(e.selector, 0x08);
    assert_eq!(e.type_attr, 0x8E);
}

#[test]
fn the_first_48_interrupts_have_handlers() {
    let mut t = Box::new(Idt::new());
    let mut stubs = [0u64; HANDLER_COUNT];
    for i in 0..HANDLER_COUNT {
        stubs[i] = 0x10_0000 + 16 * i as u64;
    }
    let p = idt::init(&mut t, &stubs, 0xABC0);
    assert_eq!(p.limit, 4095);
    assert_eq!(p.base, 0xABC0);
    assert_eq!(t.entries[47].offset_low, 16 * 47);
    assert_eq!(t.entries[47].offset_mid, 0x10);
    assert_eq!(t.entries[47].selector, 8);
    assert_eq!(t.entries[48], IdtEntry::empty());
}

fn frame(int_no: u64, error_code: u64) -> InterruptFrame {
    InterruptFrame {
        r15: 0, r14: 0, r13: 0, r12: 0, r11: 0, r10: 0, r9: 0, r8: 0,
        rbp: 0, rdi: 0, rsi: 0, rdx: 0, rcx: 0, rbx: 0, rax: 0,
        int_no,
        error_code,
        rip: 0, cs: 8, rflags: 0x202, rsp: 0, ss: 0x10,
    }
}

#[test]
fn every_line_is_served() {
    assert_eq!(idt::interrupt_dispatch(&frame(14, 0)), vec![Action::Halt]);
    assert_eq!(
        idt::interrupt_dispatch(&frame(32, 0)),
        vec![Action::EndOfInterrupt(0), Action::Tick]
    );
    assert_eq!(
        idt::interrupt_dispatch(&frame(33, 0)),
        vec![Action::ReadKey, Action::EndOfInterrupt(1)]
    );
    for i in 34..48u64 {
        assert_eq!(
            idt::interrupt_dispatch(&frame(i, 0)),
            vec![Action::EndOfInterrupt((i - 32) as u8)]
        );
    }
    assert!(idt::interrupt_dispatch(&frame(48, 0)).is_empty());
}

#[test]
fn faults_are_reported_with_their_cause() {
    assert_eq!(idt::exception_name(0), "Division Error");
    assert_eq!(idt::exception_name(8), "Double Fault");
    assert_eq!(idt::exception_name(13), "General Protection Fault");
    assert_eq!(idt::exception_name(15), "Reserved");
    assert_eq!(idt::exception_name(31), "Reserved");
    assert_eq!(idt::exception_name(32), "Unknown");
    let r = idt::handle_exception(&frame(14, 6));
    assert_eq!(r.name, "Page Fault");
    let c = r.cause.unwrap();
    assert_eq!((c.reason, c.access, c.mode), ("page not present", ", write", ", user-mode"));
    let c = idt::handle_exception(&frame(14, 1)).cause.unwrap();
    assert_eq!((c.reason, c.access, c.mode), ("protection violation", ", read", ", kernel-mode"));
    assert!(idt::handle_exception(&frame(13, 1)).cause.is_none());
}

#[test]
fn the_controllers_are_set_up_in_order() {
    let w: Vec<(u16, u8)> = pic::init().iter().map(|p| (p.port, p.value)).collect();
    assert_eq!(w.len(), 18);
    let data: Vec<(u16, u8)> = w.into_iter().filter(|p| p.0 != 0x80).collect();
    assert_eq!(
        data,
        vec![
            (0x20, 0x11), (0xA0, 0x11),
            (0x21, 32), (0xA1, 40),
            (0x21, 4), (0xA1, 2),
            (0x21, 1), (0xA1, 1),
            (0x21, 0xFF), (0xA1, 0xFF),
        ]
    );
}

#[test]
fn lines_are_masked_one_by_one() {
    assert_eq!(pic::unmask(1, 0xFF, 0xFF), vec![PortWrite { port: 0x21, value: 0xFD }]);
    assert_eq!(
        pic::unmask(12, 0xFF, 0xFF),
        vec![PortWrite { port: 0x21, value: 0xFB }, PortWrite { port: 0xA1, value: 0xEF }]
    );
    assert_eq!(pic::mask(1, 0xF8), PortWrite { port: 0x21, value: 0xFA });
    assert_eq!(pic::mask(15, 0x00), PortWrite { port: 0xA1, value: 0x80 });
}

#[test]
fn the_second_controller_is_acknowledged_too() {
    assert_eq!(pic::send_eoi(7), vec![PortWrite { port: 0x20, value: 0x20 }]);
    assert_eq!(
        pic::send_eoi(8),
        vec![PortWrite { port: 0xA0, value: 0x20 }, PortWrite { port: 0x20, value: 0x20 }]
    );
}

fn typed(codes: &[u8]) -> (Vec<Echo>, Vec<u8>) {
    let mut s = KeyboardState::new();
    let mut b = InputBuffer::new();
    let e = codes.iter().map(|c| keyboard::handle_scancode(&mut s, &mut b, *c)).collect();
    let mut read = vec![];
    while let Some(c) = keyboard::read_char(&mut b) {
        read.push(c);
    }
    (e, read)
}

#[test]
fn keys_give_their_characters() {
    let (e, r) = typed(&[0x1E, 0x9E, 0x02, 0x1C, 0x0E]);
    assert_eq!(
        e,
        vec![Echo::Show(b'a'), Echo::Nothing, Echo::Show(b'1'), Echo::NewLine, Echo::Erase]
    );
    assert_eq!(r, vec![b'a', b'1', b'\n', 8]);
}

#[test]
fn shift_and_caps_lock_cancel_each_other() {
    let (_, r) = typed(&[0x2A, 0x1E, 0xAA, 0x1E, 0x3A, 0xBA, 0x1E, 0x36, 0x1E, 0xB6]);
    assert_eq!(r, b"AaAa".to_vec());
}

#[test]
fn shift_gives_the_upper_symbols() {
    let (_, r) = typed(&[0x36, 0x02, 0x27, 0xB6, 0x27]);
    assert_eq!(r, b"!:;".to_vec());
}

#[test]
fn releasing_undoes_pressing() {
    for key in [0x2A, 0x36, 0x1D, 0x38] {
        let mut s = KeyboardState::new();
        let mut b = InputBuffer::new();
        assert_eq!(keyboard::handle_scancode(&mut s, &mut b, key), Echo::Nothing);
        assert_ne!(s, KeyboardState::new());
        keyboard::handle_scancode(&mut s, &mut b, key + 128);
        assert_eq!(s, KeyboardState::new());
        assert!(!keyboard::has_input(&b));
    }
    let held = KeyboardState { left_shift: true, ..KeyboardState::new() };
    assert!(held.shift() && held.uppercase());
}

#[test]
fn characters_keep_their_order_and_the_last_are_lost() {
    let mut b = InputBuffer::new();
    assert_eq!(b.pop(), None);
    for i in 0..300usize {
        b.push((i % 251) as u8);
    }
    assert_eq!(b.len(), 256);
    for i in 0..256usize {
        assert_eq!(b.pop(), Some((i % 251) as u8));
    }
    assert_eq!(b.pop(), None);
}

#[test]
fn a_shared_keyboard_keeps_its_state_between_calls() {
    let state = spin::Mutex::new(KeyboardState::new());
    let input = spin::Mutex::new(InputBuffer::new());
    assert!(!shared::has_input(&input));
    assert_eq!(shared::handle_scancode(&state, &input, 0x2A), Echo::Nothing);
    assert_eq!(shared::handle_scancode(&state, &input, 0x1E), Echo::Show(b'A'));
    assert!(state.lock().left_shift);
    assert!(shared::has_input(&input));
    assert_eq!(shared::read_char(&input), Some(b'A'));
    assert_eq!(shared::read_char(&input), None);
}

#[test]
fn numbers_are_written_in_digits() {
    assert_eq!(text::digits(0), b"0".to_vec());
    assert_eq!(text::digits(10_203), b"10203".to_vec());
    assert_eq!(text::digits(u64::MAX), b"18446744073709551615".to_vec());
}

#[test]
fn a_resolution_is_written_as_text() {
    let mut buf = [0u8; 20];
    assert_eq!(text::format_resolution(1024, 768, &mut buf), "1024x768");
    assert_eq!(text::format_resolution(0, 0, &mut buf), "0x0");
    assert_eq!(
        text::format_resolution(u32::MAX, u32::MAX, &mut buf),
        "4294967295x429496729"
    );
}

#[test]
fn digits_stop_at_the_end_of_the_buffer() {
    let mut buf = [b'-'; 20];
    assert_eq!(text::write_u32_to_buf(1234, &mut buf, 18), 20);
    assert_eq!(&buf[17..], b"-12");
    assert_eq!(text::write_u32_to_buf(7, &mut buf, 3), 4);
    assert_eq!(&buf[2..5], b"-7-");
    assert_eq!(text::write_u32_to_buf(5, &mut buf, 25), 25);
}
