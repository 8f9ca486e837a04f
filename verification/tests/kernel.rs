use squirrel::intent_bus::intent::{Intent, IntentPriority};
use squirrel::kernel::agents::keyboard_bridge::KeyboardBridgeAgent;
use squirrel::kernel::agents::settings_handler::{requested_change, SettingsHandler};
use squirrel::kernel::display::{blend_color, FramebufferWriter, BG_COLOR, CHAR_HEIGHT, CHAR_WIDTH, FG_COLOR};
use squirrel::kernel::drivers::keyboard::{take_key, try_read_char, typed_char, Key, KeyboardDriver, BUFFER_CAPACITY};
use squirrel::kernel::drivers::network::{NetworkDevice, NetworkError, VirtioNetDevice};
use squirrel::kernel::interrupts::apic::{elapsed_ticks, timer_count, LocalApic};
use squirrel::kernel::interrupts::ioapic::{redirection_entry, routing_program};
use squirrel::kernel::memory::dma::{dma_alloc, dma_page, dma_virt_to_phys, DmaAllocator, DMA_POOL_SIZE, DMA_VIRT_BASE};
use squirrel::kernel::memory::heap::{heap_page, HEAP_PAGES, HEAP_SIZE, HEAP_START};
use squirrel::kernel::memory::pmm::{usable_bytes, MemoryRegion, PhysicalMemoryManager};
use squirrel::kernel::timer::{milliseconds, nanoseconds, still_waiting, ticks, TickCounter};
use squirrel::network::pci::SlotConfig;
use squirrel::sart::agent::{Agent, AgentContext, AgentPoll};
use squirrel::system::{SettingsChange, System};
use std::collections::VecDeque;

fn region(base: u64, length: u64, usable: bool) -> MemoryRegion {
    MemoryRegion { base, length, usable }
}

#[test]
fn memory_manager_counts_and_places_its_bitmap() {
    let regions = [region(0, 0x1000, false), region(0x1000, 0x9000, true)];
    assert_eq!(usable_bytes(&regions), 0x9000);
    let mut pmm = PhysicalMemoryManager::new(&regions, 0);
    // Ten frames, of which the reserved one and the bitmap's are not free.
    assert_eq!(pmm.free_frames(), 8);
    let first = pmm.allocate_frame().unwrap();
    assert_eq!(first, 0x2000);
    assert_eq!(pmm.allocate_frame(), Some(0x3000));
    assert_eq!(pmm.free_frames(), 6);
    pmm.free_frame(first);
    assert_eq!(pmm.free_frames(), 7);
}

#[test]
fn frames_run_out() {
    let mut pmm = PhysicalMemoryManager::new(&[region(0, 0x3000, true)], 0);
    assert_eq!(pmm.free_frames(), 2);
    let a = pmm.allocate_frame().unwrap();
    let b = pmm.allocate_frame().unwrap();
    assert_ne!(a, b);
    assert_eq!(pmm.allocate_frame(), None);
    pmm.free_frame(a);
    assert_eq!(pmm.allocate_frame(), Some(a));
}

#[test]
fn contiguous_frames_are_found() {
    let regions = [region(0, 0x3000, true), region(0x3000, 0x1000, false), region(0x4000, 0x4000, true)];
    let mut pmm = PhysicalMemoryManager::new(&regions, 0);
    assert_eq!(pmm.allocate_contiguous(3), Some(0x4000));
    assert_eq!(pmm.allocate_contiguous(3), None);
    assert_eq!(pmm.allocate_contiguous(2), Some(0x1000));
    assert_eq!(pmm.allocate_contiguous(0), None);
    assert_eq!(pmm.free_frames(), 1);
}

#[test]
fn heap_pages_follow_each_other() {
    let mut pmm = PhysicalMemoryManager::new(&[region(0, 0x10_0000, true)], 0);
    assert_eq!(heap_page(&mut pmm, 0), Some((HEAP_START, 0x1000)));
    assert_eq!(heap_page(&mut pmm, 1), Some((HEAP_START + 4096, 0x2000)));
    assert_eq!(HEAP_PAGES * 4096, HEAP_SIZE);
}

#[test]
fn dma_allocations_are_aligned_and_apart() {
    let mut pool = DmaAllocator::new(0x1000, 0x8_0000);
    assert_eq!(pool.allocate(10, 1), Some((DMA_VIRT_BASE, 0x8_0000)));
    assert_eq!(pool.allocate(4, 256), Some((DMA_VIRT_BASE + 256, 0x8_0100)));
    assert_eq!(pool.remaining(), 0x1000 - 260);
    assert_eq!(pool.allocate(0x1000, 16), None);
    assert_eq!(pool.remaining(), 0x1000 - 260);
    let mut none: Option<DmaAllocator> = None;
    assert_eq!(dma_alloc(&mut none, 16, 16), None);
    let mut some = Some(DmaAllocator::new(64, 0));
    assert_eq!(dma_alloc(&mut some, 64, 16), Some((DMA_VIRT_BASE, 0)));
    assert_eq!(dma_page(0x8_0000, 2), (DMA_VIRT_BASE + 0x2000, 0x8_2000));
}

#[test]
fn dma_addresses_are_converted() {
    assert_eq!(dma_virt_to_phys(0x8_0000, DMA_VIRT_BASE + 5), 0x8_0005);
    assert_eq!(dma_virt_to_phys(0x8_0000, DMA_VIRT_BASE - 1), 0);
    assert_eq!(dma_virt_to_phys(0x8_0000, DMA_VIRT_BASE + DMA_POOL_SIZE as u64), 0);
}

#[test]
fn time_is_counted_in_ticks() {
    let mut clock = TickCounter::new();
    for _ in 0..7 {
        clock.advance();
    }
    assert_eq!(ticks(&clock), 7);
    assert_eq!(milliseconds(&clock), 70);
    assert_eq!(nanoseconds(&clock), 70_000_000);
    assert!(still_waiting(&clock, 50, 21));
    assert!(!still_waiting(&clock, 50, 20));
}

#[test]
fn interrupt_controllers_are_programmed() {
    let apic = LocalApic::new(0x1000);
    assert_eq!(apic.base, 0x1000 + 0xFEE0_0000);
    assert_eq!(apic.address(0x2C), apic.base + 0xB0);
    assert_eq!(elapsed_ticks(u32::MAX - 500), 500);
    assert_eq!(timer_count(500, 100), 500);
    assert_eq!(timer_count(500, 1000), 50);
    assert_eq!(redirection_entry(0x21), 0x21);
    let program = routing_program(0x0001_0011);
    assert_eq!(
        program,
        vec![
            (0x10, 0x1_0000),
            (0x11, 0),
            (0x12, 0x1_0000),
            (0x13, 0),
            (0x12, 0x21),
            (0x13, 0),
            (0x26, 0x22),
            (0x27, 0),
        ]
    );
}

#[test]
fn colors_are_blended() {
    assert_eq!(blend_color(BG_COLOR, FG_COLOR, 0), BG_COLOR);
    assert_eq!(blend_color(BG_COLOR, FG_COLOR, 255), FG_COLOR);
    assert_eq!(blend_color(0x00_00_00, 0xFF_80_10, 128), 0x80_40_08);
}

#[test]
fn glyphs_are_drawn_and_lines_wrap() {
    let mut screen = FramebufferWriter::new(2 * CHAR_WIDTH, 2 * CHAR_HEIGHT);
    assert!(screen.rows().iter().all(|r| r.iter().all(|p| *p == BG_COLOR)));
    screen.write_char('A');
    let inked: Vec<usize> = screen.rows()[..CHAR_HEIGHT]
        .iter()
        .flat_map(|r| r.iter().enumerate().filter(|(_, p)| **p != BG_COLOR).map(|(x, _)| x))
        .collect();
    assert!(!inked.is_empty());
    assert!(inked.iter().all(|x| *x < CHAR_WIDTH));
    let letter: Vec<Vec<u32>> = screen.rows()[..CHAR_HEIGHT].iter().map(|r| r[..CHAR_WIDTH].to_vec()).collect();
    // The second letter ends the first line, the third one is drawn on the second.
    screen.write_str("AA");
    let below: Vec<Vec<u32>> =
        screen.rows()[CHAR_HEIGHT..2 * CHAR_HEIGHT].iter().map(|r| r[..CHAR_WIDTH].to_vec()).collect();
    assert_eq!(below, letter);
}

#[test]
fn screen_scrolls() {
    let mut screen = FramebufferWriter::new(4 * CHAR_WIDTH, 2 * CHAR_HEIGHT);
    screen.write_str("\nB");
    let mut pieces = FramebufferWriter::new(4 * CHAR_WIDTH, 2 * CHAR_HEIGHT);
    pieces.write_str("\n");
    pieces.write_str("B");
    assert_eq!(pieces.rows(), screen.rows());
    let low: Vec<Vec<u32>> = screen.rows()[CHAR_HEIGHT..].to_vec();
    screen.write_char('\n');
    assert_eq!(screen.rows()[..CHAR_HEIGHT].to_vec(), low);
    assert!(screen.rows()[CHAR_HEIGHT..].iter().all(|r| r.iter().all(|p| *p == BG_COLOR)));
    screen.clear();
    assert!(screen.rows().iter().all(|r| r.iter().all(|p| *p == BG_COLOR)));
}

#[test]
fn unknown_characters_are_drawn_as_question_marks() {
    let mut a = FramebufferWriter::new(2 * CHAR_WIDTH, CHAR_HEIGHT);
    let mut b = FramebufferWriter::new(2 * CHAR_WIDTH, CHAR_HEIGHT);
    a.write_char('\u{4e00}');
    b.write_char('?');
    assert_eq!(a.rows(), b.rows());
}

#[test]
fn pixels_outside_are_ignored() {
    let mut screen = FramebufferWriter::new(10, 16);
    screen.put_pixel(3, 2, 7);
    screen.put_pixel(10, 2, 9);
    screen.put_pixel(3, 16, 9);
    assert_eq!(screen.rows()[2][3], 7);
    assert_eq!(screen.rows().iter().flatten().filter(|p| **p == 9).count(), 0);
}

#[test]
fn scancodes_become_characters() {
    let mut buffer: VecDeque<char> = VecDeque::new();
    let mut driver = KeyboardDriver::new();
    // a down, a up, shift down, b down, b up, shift up, Enter.
    for code in [0x1E, 0x9E, 0x2A, 0x30, 0xB0, 0xAA, 0x1C] {
        driver.handle_scancode(&mut buffer, code);
    }
    assert_eq!(try_read_char(&mut buffer), Some('a'));
    assert_eq!(try_read_char(&mut buffer), Some('B'));
    assert_eq!(try_read_char(&mut buffer), Some('\n'));
    assert_eq!(try_read_char(&mut buffer), None);
}

#[test]
fn full_key_buffer_drops_keys() {
    let mut buffer: VecDeque<char> = VecDeque::new();
    for _ in 0..(BUFFER_CAPACITY + 3) {
        take_key(&mut buffer, Some('x'));
    }
    take_key(&mut buffer, None);
    assert_eq!(buffer.len(), BUFFER_CAPACITY);
}

#[test]
fn keyboard_bridge_sends_each_key() {
    let mut sys = System::new();
    let listener = sys.bus.connect("input", &["input.char"]);
    let conn = sys.bus.connect("keyboard-bridge", &[]);
    let mut agent = KeyboardBridgeAgent::new();
    let ctx = AgentContext { bus: &conn, tick: 0 };
    assert!(agent.poll(&ctx, &mut sys) == AgentPoll::Pending);
    sys.keyboard.push_back('h');
    sys.keyboard.push_back('i');
    assert!(agent.poll(&ctx, &mut sys) == AgentPoll::Yield);
    let first = listener.try_recv(&mut sys.bus).unwrap();
    assert_eq!(first.payload, vec![b'h']);
    assert!(first.priority == IntentPriority::High);
    assert_eq!(first.sender, "keyboard-bridge");
    assert_eq!(listener.try_recv(&mut sys.bus).unwrap().payload, vec![b'i']);
    assert!(sys.keyboard.is_empty());
}

#[test]
fn settings_handler_hands_changes_on() {
    let mut sys = System::new();
    let conn = sys.bus.connect("settings-handler", &["settings.set", "input.secret.response"]);
    let mut agent = SettingsHandler::new();
    let ctx = AgentContext { bus: &conn, tick: 0 };
    sys.bus.send(Intent::with_bytes("settings.set", "x", b"inference.backend\0openai".to_vec()));
    sys.bus.send(Intent::with_bytes("input.secret.response", "x", b"top secret".to_vec()));
    sys.bus.send(Intent::with_bytes("input.secret.response", "x", vec![]));
    for _ in 0..3 {
        assert!(agent.poll(&ctx, &mut sys) == AgentPoll::Yield);
    }
    assert!(agent.poll(&ctx, &mut sys) == AgentPoll::Pending);
    assert_eq!(sys.settings.len(), 2);
    match &sys.settings[0] {
        SettingsChange::Value { key, value } => {
            assert_eq!((key.as_str(), value.as_str()), ("inference.backend", "openai"));
        }
        SettingsChange::ApiKey(_) => panic!("wrong kind of change"),
    }
    match &sys.settings[1] {
        SettingsChange::ApiKey(k) => assert_eq!(k, "top secret"),
        SettingsChange::Value { .. } => panic!("wrong kind of change"),
    }
    assert!(requested_change(&Intent::with_bytes("settings.set", "x", b"no separator".to_vec())).is_none());
    assert!(requested_change(&Intent::with_bytes("settings.other", "x", b"a\0b".to_vec())).is_none());
}

#[test]
fn placeholder_device_is_found_and_does_nothing() {
    let absent = SlotConfig { vendor_id: 0xFFFF, device_id: 0xFFFF, bar0: 0 };
    let other = SlotConfig { vendor_id: 0x8086, device_id: 0x100E, bar0: 0 };
    let virtio = SlotConfig { vendor_id: 0x1AF4, device_id: 0x1000, bar0: 0 };
    assert!(VirtioNetDevice::find(&[absent, other]).is_none());
    let mut dev = VirtioNetDevice::find(&[other, virtio]).unwrap();
    assert!(matches!(dev.recv_frame(&mut [0; 100]), Err(NetworkError::RxEmpty)));
    assert!(matches!(dev.send_frame(&[1, 2, 3]), Err(NetworkError::HardwareError)));
    assert_eq!(dev.mac_address(), [0x52, 0x54, 0x00, 0x12, 0x34, 0x56]);
}

#[test]
fn all_lines_of_a_full_controller_are_masked() {
    let program = routing_program(0x00FF_0011);
    assert_eq!(program.len(), 2 * 256 + 4);
    assert_eq!(program[0], (0x10, 0x1_0000));
    assert_eq!(program[510], (0x10 + 510, 0x1_0000));
    assert_eq!(program[511], (0x10 + 511, 0));
    assert_eq!(program[512], (0x12, 0x21));
}

#[test]
fn keys_without_a_character_are_dropped() {
    assert_eq!(typed_char(Some(Key::Unicode('q'))), Some('q'));
    assert_eq!(typed_char(Some(Key::RawKey(pc_keyboard::KeyCode::F1))), None);
    assert_eq!(typed_char(None), None);
    // F1 down, an impossible byte, then a key.
    let mut buffer: VecDeque<char> = VecDeque::new();
    let mut driver = KeyboardDriver::new();
    for code in [0x3B, 0x5F, 0x1E] {
        driver.handle_scancode(&mut buffer, code);
    }
    assert_eq!(buffer, vec!['a']);
}

#[test]
fn allocations_never_overlap() {
    let mut pool = DmaAllocator::new(DMA_POOL_SIZE, 0x40_0000);
    let mut end = DMA_VIRT_BASE;
    for (size, align) in [(10, 1), (100, 64), (1, 16), (4096, 4096), (0, 16), (7, 0)] {
        let (v, p) = pool.allocate(size, align).unwrap();
        assert!(v >= end && v % align.max(16) as u64 == 0);
        assert_eq!(p - 0x40_0000, v - DMA_VIRT_BASE);
        end = v + size as u64;
    }
    let left = pool.remaining();
    assert_eq!(pool.allocate(left + 1, 16), None);
    assert_eq!(pool.remaining(), left);
}

#[test]
fn heap_pages_get_frames_one_after_another() {
    let mut pmm = PhysicalMemoryManager::new(&[region(0, 0x5000, true)], 0);
    assert_eq!(heap_page(&mut pmm, 0), Some((HEAP_START, 0x1000)));
    assert_eq!(heap_page(&mut pmm, 1), Some((HEAP_START + 0x1000, 0x2000)));
    assert_eq!(pmm.free_frames(), 2);
}
