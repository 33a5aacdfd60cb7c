use mboot::boot_log::Cell;
use mboot::display::{
    console_page, domain_crash, failure, framebuffer_info, handoff, hardware_ready, initialize,
    iommu_initialization_failure, iommu_register_failure, iommu_register_state,
    mdriver_bar_value_failure, mdriver_claim_failure, mdriver_dma_map_failure, mochios_ready,
    present_firmware_frame, text_console_begin, text_console_cell, FramebufferInfo, Screen,
    ORDER_RGB,
};
use mboot::pci::BarProbeFailure;

fn screen() -> Screen {
    let mut screen = Screen::new();
    assert!(initialize(&mut screen, 0x8000_0000, 1024, 768, 1024, ORDER_RGB, vec![7; 1024 * 768]));
    screen
}

#[test]
fn the_framebuffer_is_described_to_the_domain() {
    let info = framebuffer_info(&screen()).unwrap();
    assert_eq!(info.address, 0x8000_0000);
    assert_eq!((info.width, info.height, info.stride), (1024, 768, 1024));
    assert_eq!(info.size, 4 * 1024 * 768);
    assert_eq!(framebuffer_info(&Screen::new()), None);
}

#[test]
fn nothing_is_drawn_once_the_screen_is_handed_off() {
    let mut screen = screen();
    failure(&mut screen, 7);
    assert!(screen.pixels().iter().any(|pixel| *pixel != 7));
    let pixels = handoff(&mut screen);
    assert_eq!(pixels.len(), 1024 * 768);
    failure(&mut screen, 8);
    domain_crash(&mut screen, 1, 2, 3, 4);
    mochios_ready(&mut screen);
    hardware_ready(&mut screen);
    text_console_begin(&mut screen);
    text_console_cell(&mut screen, Cell { x: 1, y: 0, byte: b'i' }, &[[0xff; 16]; 95]);
    assert!(!console_page(&mut screen, b"hello", &[[0xff; 16]; 95]));
    assert_eq!(screen.pixels().len(), 0);
    assert_eq!(framebuffer_info(&screen), None);
}

#[test]
fn reports_differ_by_what_they_show() {
    let mut first = screen();
    let mut second = screen();
    failure(&mut first, 7);
    failure(&mut second, 8);
    assert_ne!(first.pixels(), second.pixels());
}

#[test]
fn console_cells_follow_the_font() {
    let mut screen = screen();
    let mut font = [[0u8; 16]; 95];
    font[(b'i' - 0x20) as usize] = [0xff; 16];
    text_console_begin(&mut screen);
    let before = screen.pixels().to_vec();
    text_console_cell(&mut screen, Cell { x: 1, y: 0, byte: b'i' }, &font);
    assert_ne!(before, screen.pixels());
    assert!(console_page(&mut screen, b"hello", &font));
}

#[test]
fn frames_outside_the_framebuffer_are_refused() {
    let info =
        FramebufferInfo { address: 0x1000, size: 64, width: 4, height: 4, stride: 4, format: 1 };
    let mut frame = vec![0u32; 16];
    assert!(present_firmware_frame(info, &mut frame, 1, 1, 2, 1, &[1, 2, 3, 4, 5, 6, 7, 8]));
    assert_ne!(frame[5], 0);
    assert_eq!(frame[4], 0);
    assert!(!present_firmware_frame(info, &mut frame, 3, 1, 2, 1, &[0; 8]));
    assert!(!present_firmware_frame(info, &mut frame, 0, 0, 2, 1, &[0; 7]));
}

#[test]
fn device_failures_name_the_device_and_the_cause() {
    let quiet = screen();
    let mut state = screen();
    iommu_register_state(&mut state, 0x10, 1, 2, 3);
    assert_eq!(state.pixels(), quiet.pixels());

    let registers = |status| {
        let mut screen = screen();
        iommu_register_failure(&mut screen, 0x10, status, 2, 3);
        screen.pixels().to_vec()
    };
    assert_ne!(registers(1), registers(4));

    let unit = |detail: &[u8]| {
        let mut screen = screen();
        iommu_initialization_failure(&mut screen, detail);
        screen.pixels().to_vec()
    };
    assert_ne!(unit(b"TABLES"), unit(b"ROOT"));

    let bar = |low| {
        let mut screen = screen();
        let cause =
            BarProbeFailure { index: 1, reason: 2, high: 0, low, mask_high: 0, mask_low: 0xf };
        mdriver_bar_value_failure(&mut screen, 0x10, cause);
        screen.pixels().to_vec()
    };
    assert_ne!(bar(0x1000), bar(0x2000));

    let mut claim = screen();
    mdriver_claim_failure(&mut claim, 0x10, b"DMA MAP ERROR");
    let mut map = screen();
    mdriver_dma_map_failure(&mut map, 0x10, b"TABLES");
    assert_ne!(claim.pixels(), map.pixels());
}
