use mboot::arch::x86_64::descriptor::{
    decode_tss_base, tss_descriptor_offset, Handlers, HostTables, IdtEntry, INTERRUPT_GATE,
    KERNEL_CODE_SELECTOR, TSS_SELECTOR,
};
use mboot::arch::x86_64::timer::VECTOR;
use mboot::pci::{DEVICE_VECTOR_FIRST, DEVICE_VECTOR_LAST};
use mboot::Error;

#[test]
fn current_tss_preserves_all_address_bits() {
    // Busy, present 64-bit TSS at 0x1234_5678_9abc_def0.
    assert_eq!(
        decode_tss_base(0x9a00_8bbc_def0_0067, 0x1234_5678),
        Ok(0x1234_5678_9abc_def0)
    );
}

#[test]
fn rejects_non_tss_and_reserved_high_bits() {
    assert!(decode_tss_base(0x00af_9a00_0000_ffff, 0).is_err());
    assert!(decode_tss_base(0x0000_8b00_0000_0067, 1 << 32).is_err());
}

#[test]
fn installed_task_segment_is_read_back_once_busy() {
    let handlers = Handlers { exception: 0x1000, timer: 0x2000, device: 0x3000 };
    let mut tables = HostTables::new();
    tables.install(handlers, 0x1234_5678_9abc_def0);
    let busy = tables.gdt[3] | (2 << 40);
    assert_eq!(decode_tss_base(busy, tables.gdt[4]), Ok(0x1234_5678_9abc_def0));
    assert_eq!(tss_descriptor_offset(TSS_SELECTOR, 39), Ok(24));
    assert_eq!(tss_descriptor_offset(TSS_SELECTOR, 38), Err(Error::InvalidState));
}

#[test]
fn vectors_are_routed_to_their_handlers() {
    let handlers = Handlers {
        exception: 0x1111_2222_3333_4444,
        timer: 0x5555,
        device: 0x6666_0000,
    };
    let mut tables = HostTables::new();
    tables.install(handlers, 0x9000);
    let gate = tables.idt[3];
    assert_eq!(gate.selector, KERNEL_CODE_SELECTOR);
    assert_eq!(gate.attributes, INTERRUPT_GATE);
    assert_eq!(gate.offset_low, 0x4444);
    assert_eq!(gate.offset_middle, 0x3333);
    assert_eq!(gate.offset_high, 0x1111_2222);
    assert_eq!(tables.idt[VECTOR as usize], IdtEntry::interrupt(0x5555));
    assert_eq!(tables.idt[DEVICE_VECTOR_FIRST as usize], IdtEntry::interrupt(0x6666_0000));
    assert_eq!(tables.idt[DEVICE_VECTOR_LAST as usize], IdtEntry::interrupt(0x6666_0000));
    assert_eq!(tables.idt[255], IdtEntry::interrupt(0x1111_2222_3333_4444));
    assert_eq!(HostTables::new().idt[255], IdtEntry::missing());
}
