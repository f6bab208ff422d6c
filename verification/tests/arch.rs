use lib::arch::riscv64::virtio::{
    gpu_response_ok, is_device, net_features, net_mac, offered_features, queue_usable, slot_base,
    GpuHeader, Received, TransmitSlot, VirtioGpu, VirtioNet, CMD_RESOURCE_FLUSH,
    CMD_TRANSFER_TO_HOST_2D,
};
use lib::arch::uefi::{mode_framebuffer, preferred_mode, GopFramebuffer};
use lib::arch::x86_64::{
    boot_framebuffer, debug_write, e1000_mac, e1000_mmio, enable_bus_master, keyboard_ready,
    mouse_ready, pci_address, rtc_time, scan_code, shortcut, BootInfo, Keyboard, Mouse,
    MouseEvent, E1000, BOOT_MAGIC,
};
use lib::arch::{move_pointer, riscv64, uefi};
use lib::framebuffer::UiAction;
use lib::uefi::GopModeInfo;

#[test]
fn serial_output_uses_crlf() {
    assert_eq!(debug_write("a\nb\n"), b"a\r\nb\r\n".to_vec());
    assert_eq!(riscv64::debug_write("x"), b"x".to_vec());
    assert_eq!(riscv64::emergency_write("\n"), b"\r\n".to_vec());
    assert_eq!(uefi::debug_write("A\n"), vec![0x41u16, 0x0d, 0x0a]);
}

#[test]
fn scan_codes_type_us_layout() {
    assert_eq!(scan_code(0x1e, false), Some(b'a'));
    assert_eq!(scan_code(0x1e, true), Some(b'A'));
    assert_eq!(scan_code(0x02, false), Some(b'1'));
    assert_eq!(scan_code(0x02, true), Some(b'!'));
    assert_eq!(scan_code(0x0b, true), Some(b')'));
    assert_eq!(scan_code(0x28, true), Some(b'"'));
    assert_eq!(scan_code(0x2b, true), Some(b'|'));
    assert_eq!(scan_code(0x39, true), Some(b' '));
    assert_eq!(scan_code(0x1c, false), Some(b'\n'));
    assert_eq!(scan_code(0x0e, false), Some(8));
    assert_eq!(scan_code(0x3b, true), Some(0xf1));
    assert_eq!(scan_code(0x42, false), Some(0xf8));
    assert_eq!(scan_code(0x32, false), Some(b'm'));
    assert_eq!(scan_code(0x01, false), None);
    assert_eq!(scan_code(0x3f, false), None);
}

#[test]
fn keyboard_tracks_shift() {
    assert!(keyboard_ready(0x01));
    assert!(!keyboard_ready(0x21));
    assert!(!keyboard_ready(0x00));
    let mut keyboard = Keyboard::new();
    assert_eq!(keyboard.translate(0x10), Some(b'q'));
    assert_eq!(keyboard.translate(0x2a), None);
    assert_eq!(keyboard.translate(0x10), Some(b'Q'));
    assert_eq!(keyboard.translate(0x90), None);
    assert_eq!(keyboard.translate(0xaa), None);
    assert_eq!(keyboard.translate(0x10), Some(b'q'));
    assert_eq!(keyboard.translate(0x36), None);
    assert_eq!(keyboard.translate(0x35), Some(b'?'));
    assert_eq!(keyboard.translate(0xb6), None);
    assert!(!keyboard.shift);
}

#[test]
fn function_keys_open_windows() {
    assert_eq!(shortcut(0xf1), UiAction::Launcher);
    assert_eq!(shortcut(0xf2), UiAction::Terminal);
    assert_eq!(shortcut(0xf3), UiAction::Files);
    assert_eq!(shortcut(0xf4), UiAction::Settings);
    assert_eq!(shortcut(0xf8), UiAction::Installer);
    assert_eq!(shortcut(b'a'), UiAction::NoAction);
}

#[test]
fn mouse_packets_move_the_pointer() {
    assert!(mouse_ready(0x21));
    assert!(!mouse_ready(0x01));
    let mut mouse = Mouse::new(800, 600, true);
    assert_eq!((mouse.x, mouse.y), (400, 300));
    assert_eq!(mouse.feed(0x00), None);
    assert_eq!(mouse.feed(0x09), None);
    assert_eq!(mouse.feed(10), None);
    assert_eq!(
        mouse.feed(0xfb),
        Some(MouseEvent { x: 410, y: 305, dx: 10, dy: 5, left: true, was_left: false })
    );
    assert_eq!(mouse.feed(0x08), None);
    assert_eq!(mouse.feed(0x80), None);
    assert_eq!(
        mouse.feed(0x7f),
        Some(MouseEvent { x: 282, y: 178, dx: -128, dy: -127, left: false, was_left: true })
    );
    assert_eq!(mouse.feed(0x48), None);
    assert_eq!(mouse.feed(1), None);
    assert_eq!(mouse.feed(1), None);
    assert_eq!((mouse.x, mouse.y), (282, 178));
}

#[test]
fn pointer_stays_on_screen() {
    assert_eq!(move_pointer(5, -10, 100), 0);
    assert_eq!(move_pointer(95, 10, 100), 99);
    assert_eq!(move_pointer(50, 10, 100), 60);
    assert_eq!(move_pointer(7, 3, 0), 0);
    let mut mouse = Mouse::new(10, 10, true);
    mouse.feed(0x08);
    mouse.feed(100);
    mouse.feed(0x9c);
    assert_eq!((mouse.x, mouse.y), (9, 9));
    let mut disabled = Mouse::new(10, 10, false);
    assert_eq!(disabled.feed(0x08), None);
}

#[test]
fn clock_registers_are_decoded() {
    assert_eq!(rtc_time(0, 0x45, 0x30, 0x12, 0x02, 0x45), Some((12, 30, 45)));
    assert_eq!(rtc_time(0, 0x45, 0x30, 0x81, 0x00, 0x45), Some((13, 30, 45)));
    assert_eq!(rtc_time(0, 0x05, 0x00, 0x12, 0x00, 0x05), Some((0, 0, 5)));
    assert_eq!(rtc_time(0, 59, 7, 23, 0x06, 59), Some((23, 7, 59)));
    assert_eq!(rtc_time(0x80, 0, 0, 0, 0, 0), None);
    assert_eq!(rtc_time(0, 1, 0, 0, 0, 2), None);
}

#[test]
fn pci_configuration_addresses() {
    assert_eq!(pci_address(0, 3, 0, 0x10), 0x8000_1810);
    assert_eq!(pci_address(1, 0, 2, 0x13), 0x8001_0210);
    assert_eq!(enable_bus_master(0x0001), 0x0007);
}

#[test]
fn e1000_is_recognised() {
    assert_eq!(e1000_mmio(0x100e_8086, 0x0200_0000, 0xfebc_0000), Some(0xfebc_0000));
    assert_eq!(e1000_mmio(0x100e_8086, 0x0200_0000, 0xfebc_000f), None);
    assert_eq!(e1000_mmio(0x100e_8086, 0x0300_0000, 0xfebc_0000), None);
    assert_eq!(e1000_mmio(0xffff_ffff, 0x0200_0000, 0), None);
    assert_eq!(e1000_mmio(0x1234_10ec, 0x0200_0000, 0x1000), None);
    assert_eq!(e1000_mac(0x1200_5452, 0x5634), Some([0x52, 0x54, 0x00, 0x12, 0x34, 0x56]));
    assert_eq!(e1000_mac(0, 0), None);
}

#[test]
fn e1000_rings_wrap() {
    let mut card = E1000::new([1, 2, 3, 4, 5, 6]);
    assert_eq!(card.mac_address(), [1, 2, 3, 4, 5, 6]);
    assert_eq!(card.received(3000, 4096), 2048);
    assert_eq!(card.received(60, 40), 40);
    assert_eq!(card.receive_index(), 2);
    for _ in 0..14 {
        card.received(60, 2048);
    }
    assert_eq!(card.receive_index(), 0);
    for expected in [1, 2, 3, 4, 5, 6, 7, 0] {
        assert_eq!(card.transmitted(), expected);
    }
    assert!(E1000::fits(2048));
    assert!(!E1000::fits(2049));
}

#[test]
fn boot_record_framebuffer() {
    let mut info = BootInfo {
        magic: BOOT_MAGIC,
        framebuffer: 0xfd00_0000,
        width: 1024,
        height: 768,
        pitch: 4096,
        bits_per_pixel: 32,
        boot_drive: 0x80,
        padding: [0; 7],
    };
    let fb = boot_framebuffer(&info);
    assert!(fb.available());
    assert_eq!((fb.width, fb.height), (1024, 768));
    info.bits_per_pixel = 16;
    assert!(!boot_framebuffer(&info).available());
    info.bits_per_pixel = 32;
    info.magic = 0;
    assert_eq!(boot_framebuffer(&info).width, 0);
}

#[test]
fn virtio_transport_decisions() {
    assert_eq!(slot_base(0), 0x1000_1000);
    assert_eq!(slot_base(7), 0x1000_8000);
    assert!(is_device(0x7472_6976, 2, 16, 16));
    assert!(!is_device(0x7472_6976, 1, 16, 16));
    assert_eq!(offered_features(1, 0x20), Some(0x20));
    assert_eq!(offered_features(0, 0x20), None);
    assert_eq!(net_features(0xffff_ffff), 0x20);
    assert_eq!(net_features(0x10), 0);
    assert!(queue_usable(16, 0));
    assert!(!queue_usable(8, 0));
    assert!(!queue_usable(256, 1));
    assert!(gpu_response_ok(0x1100));
    assert!(gpu_response_ok(0x1104));
    assert!(!gpu_response_ok(0x1200));
    assert_eq!(net_mac(0x20, [1, 2, 3, 4, 5, 6]), [1, 2, 3, 4, 5, 6]);
    assert_eq!(net_mac(0, [1, 2, 3, 4, 5, 6]), [0x52, 0x54, 0x00, 0x12, 0x34, 0x57]);
}

#[test]
fn virtio_gpu_requests() {
    let mut gpu = VirtioGpu { base: 0x1000_8000, last_used: 0 };
    let (transfer, flush) = gpu.flush();
    assert_eq!(transfer.header, GpuHeader::command(CMD_TRANSFER_TO_HOST_2D));
    assert_eq!(flush.header.kind, CMD_RESOURCE_FLUSH);
    assert_eq!((flush.rectangle.width, flush.rectangle.height), (800, 600));
    let (create, attach, scanout) = gpu.setup_requests(0x8000_0000);
    assert_eq!(create.header.kind, 0x0101);
    assert_eq!(attach.address, 0x8000_0000);
    assert_eq!(attach.length, 800 * 600 * 4);
    assert_eq!(scanout.resource_id, 1);
    assert!(!gpu.completed(0));
    assert!(gpu.completed(1));
    assert!(!gpu.completed(1));
}

#[test]
fn virtio_net_queues() {
    let mut net = VirtioNet::new(0x1000_1000, [1, 2, 3, 4, 5, 6]);
    assert_eq!(net.receive(0, (0, 100), 2048), Received::Empty);
    assert_eq!(net.receive(1, (3, 74), 2048), Received::Frame { id: 3, length: 64 });
    assert_eq!(net.rx_used, 1);
    assert_eq!(net.receive(5, (9, 74), 2048), Received::Skipped);
    assert_eq!(net.receive(5, (0, 4), 2048), Received::Frame { id: 0, length: 0 });
    assert_eq!(net.receive(5, (0, 5000), 1000), Received::Frame { id: 0, length: 1000 });
    assert_eq!(net.transmit_slot(60, 0), TransmitSlot::Free);
    assert_eq!(net.transmit_slot(60, 0), TransmitSlot::Busy);
    assert_eq!(net.transmit_slot(60, 1), TransmitSlot::Free);
    assert_eq!(net.tx_used, 1);
    assert_eq!(net.transmit_slot(3000, 2), TransmitSlot::Busy);
}

fn mode(width: u32, height: u32, format: u32) -> Option<GopModeInfo> {
    Some(GopModeInfo {
        version: 0,
        horizontal_resolution: width,
        vertical_resolution: height,
        pixel_format: format,
        pixel_information: [0; 4],
        pixels_per_scan_line: width,
    })
}

#[test]
fn graphics_mode_choice() {
    let modes = [mode(640, 480, 1), mode(1280, 1024, 1), None, mode(1024, 768, 0), mode(1920, 1080, 1)];
    assert_eq!(preferred_mode(0, &modes), 3);
    let modes = [mode(800, 600, 1), mode(2560, 1440, 1), mode(1920, 1080, 0), mode(4000, 3000, 2)];
    assert_eq!(preferred_mode(0, &modes), 1);
    let modes = [mode(640, 480, 1), mode(1024, 768, 2)];
    assert_eq!(preferred_mode(7, &modes), 7);
    assert_eq!(preferred_mode(2, &[]), 2);
}

#[test]
fn graphics_mode_framebuffer() {
    assert_eq!(
        mode_framebuffer(mode(1024, 768, 1), 0x8000_0000),
        Some(GopFramebuffer { address: 0x8000_0000, width: 1024, height: 768, pitch: 4096, rgb: false })
    );
    assert_eq!(mode_framebuffer(mode(1024, 768, 0), 0x8000_0000).unwrap().rgb, true);
    assert_eq!(mode_framebuffer(mode(1024, 768, 2), 0x8000_0000), None);
    assert_eq!(mode_framebuffer(mode(1024, 768, 1), 0), None);
    assert_eq!(mode_framebuffer(None, 0x8000_0000), None);
    assert_eq!(mode_framebuffer(mode(640, 480, 1), 0x8000_0000), None);
    assert_eq!(mode_framebuffer(mode(800, 599, 0), 0x8000_0000), None);
    assert_eq!(preferred_mode(0, &[mode(640, 480, 1)]), 0);
}

#[test]
fn serial_output_concatenates() {
    for (a, b) in [("ab\n", "c\n"), ("", "\n\n"), ("x", "")] {
        let mut joined = debug_write(a);
        joined.extend(debug_write(b));
        assert_eq!(debug_write(&format!("{}{}", a, b)), joined);
    }
}

#[test]
fn twelve_hour_clock_gives_hours_of_the_day() {
    for raw_hour in 0..=255u8 {
        for mode in [0x00u8, 0x04] {
            let (hour, _, _) = rtc_time(0, 0, 0, raw_hour, mode, 0).unwrap();
            assert!(hour < 24);
        }
    }
}
