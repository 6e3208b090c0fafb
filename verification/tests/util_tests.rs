use ros::console::console::Console;
use ros::console::keyboard::KeyboardState;
use ros::console::tty::{KeyInput, Tty, TtyAction, TtyEcho};
use ros::memory::bmp_alloc::{clear_bit, set_bit, test_bit, BitmapFrameAllocator};
use ros::memory::phys_frame_bump_alloc::PhysicalFrameBumpAllocator;
use ros::shared::{align_down_2mb, align_up_2mb, early_usable, MemoryRegion, MemoryRegionKind, PhysicalAllocator};
use ros::utils::ringbuffer::SpscRing;
use ros::utils::text::{push_padded_left, push_padded_right, u64_to_decimal};

#[test]
fn ring_is_first_in_first_out() {
    let mut q: SpscRing<u32, 4> = SpscRing::new();
    assert!(q.is_empty());
    for v in 1..=4 {
        assert_eq!(q.push(v), Ok(()));
    }
    assert_eq!(q.push(5), Err(5));
    assert_eq!(q.len(), 4);
    assert_eq!(q.pop(), Some(1));
    assert_eq!(q.push(6), Ok(()));
    assert_eq!(q.pop(), Some(2));
    assert_eq!(q.pop(), Some(3));
    assert_eq!(q.pop(), Some(4));
    assert_eq!(q.pop(), Some(6));
    assert_eq!(q.pop(), None);
}

#[test]
fn ring_wraps_many_times() {
    let mut q: SpscRing<u8, 2> = SpscRing::new();
    for i in 0..50u8 {
        q.push(i).unwrap();
        assert_eq!(q.pop(), Some(i));
    }
    assert!(q.is_empty());
}

#[test]
fn decimal_text() {
    assert_eq!(u64_to_decimal(0), b"0".to_vec());
    assert_eq!(u64_to_decimal(907), b"907".to_vec());
    assert_eq!(u64_to_decimal(u64::MAX), b"18446744073709551615".to_vec());
}

#[test]
fn padding() {
    let mut out = b"x".to_vec();
    push_padded_left(&mut out, b"42", 5);
    assert_eq!(out, b"x   42".to_vec());
    let mut out = Vec::new();
    push_padded_right(&mut out, b"init", 6);
    assert_eq!(out, b"init  ".to_vec());
    let mut out = Vec::new();
    push_padded_left(&mut out, b"toolong", 3);
    assert_eq!(out, b"toolong".to_vec());
}

#[test]
fn bitmap_bits() {
    let mut bmp = vec![0u8; 4];
    set_bit(&mut bmp, 10);
    assert_eq!(bmp[1], 0b0000_0100);
    assert!(test_bit(&bmp, 10));
    assert!(!test_bit(&bmp, 11));
    set_bit(&mut bmp, 31);
    assert_eq!(bmp[3], 0x80);
    clear_bit(&mut bmp, 10);
    assert!(!test_bit(&bmp, 10));
    assert!(test_bit(&bmp, 31));
}

#[test]
fn two_mib_alignment() {
    assert_eq!(align_down_2mb(0x3f_ffff), 0x20_0000);
    assert_eq!(align_up_2mb(0x20_0001), 0x40_0000);
    assert_eq!(align_up_2mb(0x40_0000), 0x40_0000);
}

#[test]
fn early_usable_kinds() {
    assert!(early_usable(MemoryRegionKind::Usable));
    assert!(early_usable(MemoryRegionKind::EarlyReclaimable));
    assert!(!early_usable(MemoryRegionKind::Reserved));
    assert!(!early_usable(MemoryRegionKind::LoaderData));
}

fn regions() -> &'static [MemoryRegion] {
    Box::leak(
        vec![
            MemoryRegion { start: 0, end: 0xA_0000, kind: MemoryRegionKind::Usable },
            MemoryRegion { start: 0x10_0000, end: 0x10_3000, kind: MemoryRegionKind::Usable },
            MemoryRegion { start: 0x20_0000, end: 0x30_0000, kind: MemoryRegionKind::Reserved },
            MemoryRegion { start: 0x40_0000, end: 0x50_0000, kind: MemoryRegionKind::Usable },
        ]
        .into_boxed_slice(),
    )
}

#[test]
fn boot_allocator_hands_out_pages_in_order() {
    let mut a = PhysicalAllocator::new(regions());
    assert_eq!(a.current, 1);
    assert_eq!(a.alloc_frame(), 0x10_0000);
    assert_eq!(a.alloc_frame(), 0x10_1000);
    assert_eq!(a.alloc_frame(), 0x10_2000);
    assert_eq!(a.alloc_frame(), 0x40_0000);
    assert_eq!(a.current, 3);
    assert_eq!(a.alloc_frames(2), 0x40_1000);
    assert_eq!(a.next, 0x40_3000);
}

#[test]
fn boot_allocator_restore_aligns() {
    let a = PhysicalAllocator::restore_from(regions(), 3, 0x40_0010);
    assert_eq!(a.next, 0x40_1000);
}

#[test]
fn tty_canonical_line() {
    let mut tty = Tty::new();
    let mut input: SpscRing<u8, 1024> = SpscRing::new();
    let a = tty.on_decode_key(KeyInput::Unicode('h'));
    assert_eq!(a, TtyAction::PutByte(b'h'));
    assert_eq!(tty.apply_action(a, &mut input), TtyEcho::Print('h'));
    tty.apply_action(TtyAction::PutByte(b'x'), &mut input);
    assert_eq!(tty.apply_action(TtyAction::Backspace, &mut input), TtyEcho::Erase);
    tty.apply_action(TtyAction::PutByte(b'i'), &mut input);
    assert!(input.is_empty());
    assert_eq!(tty.apply_action(TtyAction::Newline, &mut input), TtyEcho::Newline);
    assert_eq!(input.pop(), Some(b'h'));
    assert_eq!(input.pop(), Some(b'i'));
    assert_eq!(input.pop(), Some(b'\n'));
    assert_eq!(input.pop(), None);
}

#[test]
fn tty_key_decoding() {
    let mut tty = Tty::new();
    assert_eq!(tty.on_decode_key(KeyInput::Unicode('\u{7f}')), TtyAction::Backspace);
    assert_eq!(tty.on_decode_key(KeyInput::Unicode('\n')), TtyAction::Newline);
    assert_eq!(tty.on_decode_key(KeyInput::Unicode('\u{1b}')), TtyAction::Ignore);
    assert_eq!(tty.on_decode_key(KeyInput::Raw), TtyAction::Ignore);
    let mut input: SpscRing<u8, 1024> = SpscRing::new();
    assert_eq!(tty.apply_action(TtyAction::Backspace, &mut input), TtyEcho::Nothing);
    assert_eq!(tty.apply_action(TtyAction::Ignore, &mut input), TtyEcho::Nothing);
}

#[test]
fn keyboard_decodes_scan_codes() {
    let mut kb = KeyboardState::new();
    assert_eq!(kb.feed(0x1E), Some(KeyInput::Unicode('a')));
    assert_eq!(kb.feed(0x9E), None);
    assert_eq!(kb.feed(0x1C), Some(KeyInput::Unicode('\n')));
}

#[test]
fn console_size_from_pixels() {
    let c = Console::new(640, 480);
    let w = c.get_winsize();
    assert_eq!((w.rows, w.cols, w.xpixel, w.ypixel), (30, 80, 640, 480));
    let mut slot = None;
    Console::init_console(&mut slot, 800, 600);
    let w = slot.as_ref().unwrap().get_winsize();
    assert_eq!((w.rows, w.cols), (37, 100));
}

#[test]
fn console_accepts_text() {
    let mut c = Console::new(64, 32);
    for ch in "hello\nworld\nmore lines\n".chars() {
        c.putchar(ch);
    }
    c.backspace();
    let w = c.get_winsize();
    assert_eq!((w.rows, w.cols), (2, 8));
}

fn bitmap_test_regions() -> &'static [MemoryRegion] {
    let v = vec![
        MemoryRegion { start: 0x1000, end: 0x9000, kind: MemoryRegionKind::Usable },
        MemoryRegion { start: 0x9000, end: 0x10000, kind: MemoryRegionKind::Reserved },
        MemoryRegion { start: 0x10000, end: 0x14000, kind: MemoryRegionKind::Usable },
    ];
    Box::leak(v.into_boxed_slice())
}

#[test]
fn bitmap_allocator_counts_free_frames() {
    let mut boot = PhysicalFrameBumpAllocator::restore_from(bitmap_test_regions(), 0, 0x1000);
    let mut a = BitmapFrameAllocator::new(&mut boot);
    // The bitmap's page came from the boot allocator.
    assert_eq!(boot.current, 0);
    assert_eq!(boot.next, 0x2000);
    assert_eq!(a.get_total_memory(), 12 * 4096);
    assert_eq!(a.get_available_memory(), 11 * 4096);
    assert_eq!(a.alloc_frame(), Some(2));
    assert_eq!(a.get_available_memory(), 10 * 4096);
    a.dealloc_frame(2);
    assert_eq!(a.get_available_memory(), 11 * 4096);
    assert_eq!(a.alloc_frame(), Some(2));
}

#[test]
fn bitmap_allocator_exhausted_gives_none() {
    let mut boot = PhysicalFrameBumpAllocator::restore_from(bitmap_test_regions(), 0, 0x1000);
    let mut a = BitmapFrameAllocator::new(&mut boot);
    let mut got = Vec::new();
    while let Some(f) = a.alloc_frame() {
        got.push(f);
    }
    assert_eq!(got, vec![2, 3, 4, 5, 6, 7, 8, 16, 17, 18, 19]);
    assert_eq!(a.get_available_memory(), 0);
    assert_eq!(a.alloc_frame(), None);
}

#[test]
fn ring_length_is_taken_pushes_minus_pops() {
    let mut q: SpscRing<u32, 4> = SpscRing::new();
    let mut taken = 0;
    for x in 0..5u32 {
        if q.push(x).is_ok() {
            taken += 1;
        }
    }
    assert_eq!(taken, 4);
    let mut popped = 0;
    for _ in 0..2 {
        if q.pop().is_some() {
            popped += 1;
        }
    }
    assert_eq!(q.len(), taken - popped);
    assert_eq!(q.pop(), Some(2));
    assert_eq!(q.pop(), Some(3));
    assert_eq!(q.pop(), None);
    assert!(q.is_empty());
}
