use mboot::pci::PciFunction;
use mboot::watchdog::{
    Error, HardwareWatchdog, WatchdogStep, ESB_MAX_TIMEOUT_SECONDS, ESB_MIN_TIMEOUT_SECONDS,
    INTEL_6300ESB_WATCHDOG_ID, INTEL_VENDOR_ID,
};

#[test]
fn timeout_range_matches_the_two_stage_counter() {
    assert_eq!(ESB_MIN_TIMEOUT_SECONDS, 1);
    assert_eq!(ESB_MAX_TIMEOUT_SECONDS, 2046);
    assert_eq!(u32::from(30_u16) << 9, 15_360);
}

fn esb() -> PciFunction {
    PciFunction {
        requester: 0x00f8,
        vendor: INTEL_VENDOR_ID,
        device: INTEL_6300ESB_WATCHDOG_ID,
        class: 8,
        subclass: 0x80,
    }
}

#[test]
fn only_the_known_watchdog_is_started() {
    assert!(matches!(HardwareWatchdog::start(&[PciFunction::default()], 30), Ok(None)));
    assert!(matches!(HardwareWatchdog::start(&[esb()], 0), Err(Error::InvalidTimeout)));
    assert!(matches!(HardwareWatchdog::start(&[esb()], 2047), Err(Error::InvalidTimeout)));
    let (requester, step) = HardwareWatchdog::start(&[esb()], 30).unwrap().unwrap();
    assert_eq!(requester, 0x00f8);
    assert!(matches!(step, WatchdogStep::Window));
    assert!(matches!(step.next(30, 0), Err(Error::InvalidBar)));
}
