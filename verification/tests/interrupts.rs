use mboot::domain::DomainId;
use mboot::event::{EventChannelTable, EventDelivery, EventError, MAX_EVENT_CHANNELS};
use mboot::interrupt::{
    InterruptError, VirtualLocalApic, APIC_VERSION, IA32_TSC_DEADLINE, LVT_MASKED,
    LVT_TSC_DEADLINE, X2APIC_EOI, X2APIC_ID, X2APIC_LVT_TIMER, X2APIC_SIVR, X2APIC_TPR,
    X2APIC_VERSION,
};

#[test]
fn higher_interrupts_nest_and_lower_ones_wait() {
    let mut apic = VirtualLocalApic::new();
    assert_eq!(apic.next_pending(), None);
    apic.raise(0x40).unwrap();
    apic.raise(0x41).unwrap();
    assert_eq!(apic.next_pending(), Some(0x41));
    apic.accept(0x41).unwrap();
    assert_eq!(apic.next_pending(), None);
    apic.raise(0x50).unwrap();
    assert_eq!(apic.next_pending(), Some(0x50));
    apic.accept(0x50).unwrap();
    assert_eq!(apic.eoi(), Ok(0x50));
    assert_eq!(apic.eoi(), Ok(0x41));
    assert_eq!(apic.next_pending(), Some(0x40));
    assert_eq!(apic.eoi(), Err(InterruptError::NotInService));
}

#[test]
fn masked_and_low_priority_interrupts_are_held_back() {
    let mut apic = VirtualLocalApic::new();
    apic.raise(0x42).unwrap();
    apic.set_masked(0x42, true).unwrap();
    assert_eq!(apic.next_pending(), None);
    apic.set_masked(0x42, false).unwrap();
    apic.set_task_priority(0x40);
    assert_eq!(apic.next_pending(), None);
    apic.set_task_priority(0x3f);
    assert_eq!(apic.next_pending(), Some(0x42));
    assert!(apic.cancel_pending(0x42));
    assert!(!apic.cancel_pending(0x42));
    assert_eq!(apic.accept(0x42), Err(InterruptError::NotPending));
}

#[test]
fn exception_vectors_are_refused() {
    let mut apic = VirtualLocalApic::new();
    assert_eq!(apic.raise(15), Err(InterruptError::InvalidVector));
    assert_eq!(apic.set_masked(0, true), Err(InterruptError::InvalidVector));
    assert_eq!(apic.raise(16), Ok(()));
}

#[test]
fn a_due_timer_fires_once() {
    let mut apic = VirtualLocalApic::new_x2apic();
    apic.write_msr(X2APIC_LVT_TIMER, LVT_TSC_DEADLINE | 0xec).unwrap();
    apic.write_msr(IA32_TSC_DEADLINE, 1000).unwrap();
    apic.update_timer(999);
    assert_eq!(apic.next_pending(), None);
    assert_eq!(apic.read_msr(IA32_TSC_DEADLINE), Ok(1000));
    apic.update_timer(1000);
    assert_eq!(apic.read_msr(IA32_TSC_DEADLINE), Ok(0));
    assert_eq!(apic.next_pending(), Some(0xec));
    apic.accept(0xec).unwrap();
    apic.update_timer(2000);
    apic.write_msr(X2APIC_EOI, 0).unwrap();
    assert_eq!(apic.next_pending(), None);
    apic.write_msr(X2APIC_LVT_TIMER, LVT_TSC_DEADLINE | LVT_MASKED | 0xec).unwrap();
    apic.write_msr(IA32_TSC_DEADLINE, 1).unwrap();
    apic.update_timer(3000);
    assert_eq!(apic.next_pending(), None);
}

#[test]
fn controller_registers_are_visible_only_in_x2apic_mode() {
    let mut plain = VirtualLocalApic::new();
    assert_eq!(plain.read_msr(X2APIC_ID), Err(InterruptError::UnknownRegister));
    assert_eq!(plain.write_msr(X2APIC_EOI, 0), Err(InterruptError::UnknownRegister));
    let mut apic = VirtualLocalApic::new_x2apic();
    assert_eq!(apic.read_msr(X2APIC_ID), Ok(0));
    assert_eq!(apic.read_msr(X2APIC_VERSION), Ok(APIC_VERSION));
    assert_eq!(apic.read_msr(X2APIC_SIVR), Ok(0xff));
    apic.write_msr(X2APIC_SIVR, 0x1ff).unwrap();
    assert_eq!(apic.read_msr(X2APIC_SIVR), Ok(0x1ff));
    apic.write_msr(X2APIC_TPR, 0x20).unwrap();
    assert_eq!(apic.read_msr(X2APIC_TPR), Ok(0x20));
    assert_eq!(apic.write_msr(X2APIC_TPR, 0x100), Err(InterruptError::UnknownRegister));
    assert_eq!(apic.write_msr(X2APIC_SIVR, 0x200), Err(InterruptError::UnknownRegister));
    assert_eq!(apic.write_msr(0x830, 0), Err(InterruptError::UnknownRegister));
}

#[test]
fn events_reach_the_peer_once() {
    let a = DomainId::new(1);
    let b = DomainId::new(2);
    let mut table = EventChannelTable::new();
    table.connect(a, 4, b, 9).unwrap();
    assert_eq!(
        table.send(a, 4),
        Ok(EventDelivery { domain: b, port: 9, first_delivery: true })
    );
    assert!(table.has_pending(b));
    assert!(!table.has_pending(a));
    assert_eq!(table.receive(b), Some(9));
    assert_eq!(table.receive(b), None);
    assert_eq!(
        table.send(b, 9),
        Ok(EventDelivery { domain: a, port: 4, first_delivery: true })
    );
    assert_eq!(
        table.send(a, 4),
        Ok(EventDelivery { domain: b, port: 9, first_delivery: false })
    );
    assert_eq!(table.send(a, 5), Err(EventError::UnknownPort));
}

#[test]
fn channels_need_free_ports_of_two_domains() {
    let a = DomainId::new(1);
    let b = DomainId::new(2);
    let mut table = EventChannelTable::default();
    assert_eq!(table.connect(a, 1, a, 2), Err(EventError::InvalidEndpoint));
    assert_eq!(table.connect(DomainId::new(0), 1, a, 2), Err(EventError::InvalidEndpoint));
    table.connect(a, 1, b, 1).unwrap();
    assert_eq!(table.connect(a, 1, b, 2), Err(EventError::PortInUse));
    assert_eq!(table.connect(b, 2, a, 1), Err(EventError::PortInUse));
    for port in 2..=MAX_EVENT_CHANNELS as u32 {
        table.connect(a, port, b, port).unwrap();
    }
    assert_eq!(table.connect(a, 100, b, 100), Err(EventError::TableFull));
}

#[test]
fn a_disconnected_domain_is_silent() {
    let a = DomainId::new(1);
    let b = DomainId::new(2);
    let c = DomainId::new(3);
    let mut table = EventChannelTable::new();
    table.connect(a, 1, b, 1).unwrap();
    table.connect(b, 2, c, 1).unwrap();
    table.connect(a, 2, c, 2).unwrap();
    table.send(a, 1).unwrap();
    assert_eq!(table.disconnect_domain(b), 2);
    assert!(!table.has_pending(b));
    assert_eq!(table.send(a, 1), Err(EventError::UnknownPort));
    assert_eq!(table.send(c, 2).unwrap().domain, a);
}
