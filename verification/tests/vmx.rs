use mboot::arch::x86_64::vmx::{
    adjusted_control_register, adjusted_vm_control, can_inject_interrupt, check_enable,
    choose_controls, control_msrs, control_region_address_valid, control_region_revision,
    feature_control_update, finish_enable, fixed_mask_for_guest, general_protection_injection,
    initialize_guest_msr_lists, interrupt_injection, interrupt_window_controls, next_instruction,
    supports_ept, synchronized_entry_controls, updated_guest_efer, validate_page,
    ControlCapabilities, EnableCleanup, EnableOutcome, ExitFields, Vmx, VmxRunContext,
    CPUID_EXIT_REASON, CR0_PAGING, EFER_LMA, EFER_LME, ENTRY_IA32E_MODE, EPT_VIOLATION_EXIT_REASON, GUEST_MSR_LIST,
    HLT_EXIT_REASON, IA32_EFER, IA32_VMX_PINBASED_CTLS, IA32_VMX_TRUE_PINBASED_CTLS,
    INTERRUPT_WINDOW_EXITING, RDMSR_EXIT_REASON, VMCALL_EXIT_REASON, WRMSR_EXIT_REASON,
};
use mboot::{BackendKind, CpuidResult, Error, GuestBootMode, VmExitReason};

#[test]
fn fixed_bits_are_applied_in_architectural_order() {
    assert_eq!(adjusted_control_register(0b0101, 0b0010, 0b0111), 0b0111);
}

#[test]
fn vmx_only_hides_host_required_control_bits() {
    let fixed0 = CR0_PAGING | (1 << 5) | 1;
    assert_eq!(fixed_mask_for_guest(fixed0, CR0_PAGING | 1), 1 << 5);
    assert_eq!(fixed_mask_for_guest(1 << 13, 0), 1 << 13);
}

#[test]
fn vm_controls_include_required_bits_and_remove_unsupported_bits() {
    let capability = 0b0010 | (0b0111u64 << 32);
    assert_eq!(adjusted_vm_control(0b1101, capability), 0b0111);
}

#[test]
fn primary_controls_request_msr_bitmap_support() {
    let desired: u64 = (1 << 7) | (1 << 28) | (1 << 31);
    let capability = desired << 32;
    assert_eq!(adjusted_vm_control(desired, capability), desired);
    assert_ne!(adjusted_vm_control(desired, capability) & (1 << 28), 0);
}

#[test]
fn control_pages_must_be_aligned() {
    assert_eq!(validate_page(0), Err(Error::InvalidPage));
    assert_eq!(validate_page(0x1001), Err(Error::InvalidPage));
    assert_eq!(validate_page(0x2000), Ok(()));
}

#[test]
fn vmx_basic_bit_48_means_32_bit_address_restriction() {
    let above_4_gib = 0x1_0000_0000;
    assert!(control_region_address_valid(0, above_4_gib));
    assert!(!control_region_address_valid(1 << 48, above_4_gib));
    assert!(control_region_address_valid(1 << 48, u32::MAX as u64));
}

#[test]
fn ept_requires_secondary_control_four_levels_and_write_back() {
    let primary = (1u64 << 31) << 32;
    let secondary = (1u64 << 1) << 32;
    let capabilities = (1 << 6) | (1 << 14) | (1 << 20) | (1 << 25);
    assert!(supports_ept(primary, secondary, capabilities));
    assert!(!supports_ept(primary, secondary, capabilities & !(1 << 6)));
    assert!(!supports_ept(primary, secondary, capabilities & !(1 << 14)));
    assert!(!supports_ept(primary, secondary, capabilities & !(1 << 20)));
    assert!(!supports_ept(primary, secondary, capabilities & !(1 << 25)));
    assert!(!supports_ept(0, secondary, capabilities));
    assert!(!supports_ept(primary, 0, capabilities));
}

#[test]
fn efer_lme_can_change_only_while_paging_is_disabled() {
    assert_eq!(updated_guest_efer(0, 0, EFER_LME), Some(EFER_LME));
    assert_eq!(updated_guest_efer(0, CR0_PAGING, EFER_LME), None);
    assert_eq!(
        updated_guest_efer(EFER_LME | EFER_LMA, CR0_PAGING, EFER_LME | EFER_LMA),
        Some(EFER_LME | EFER_LMA)
    );
    assert_eq!(updated_guest_efer(0, 0, EFER_LMA), None);
}

fn exit_fields(reason: u64) -> ExitFields {
    ExitFields { reason, interruption_info: 0, guest_physical_address: 0, qualification: 0 }
}

#[test]
fn exits_are_decoded_by_their_reason() {
    let mut vcpu = Vmx::enabled(7, 0x2000);
    assert_eq!(vcpu.revision_id(), 7);
    assert_eq!(vcpu.vmcs_phys(), 0x2000);
    vcpu.run_context.rax = 3;
    vcpu.run_context.rdi = 10;
    vcpu.run_context.rsi = 11;
    vcpu.run_context.rdx = 12;
    let call = vcpu.decode_exit(&exit_fields(VMCALL_EXIT_REASON)).unwrap();
    assert_eq!(call.reason, VmExitReason::Hypercall);
    assert_eq!((call.hypercall_number, call.arg0, call.arg1, call.arg2), (3, 10, 11, 12));
    assert_eq!(
        vcpu.decode_exit(&exit_fields(HLT_EXIT_REASON)).unwrap().reason,
        VmExitReason::Halt
    );
    vcpu.run_context.rcx = 0x10;
    vcpu.run_context.rax = 0x5_0000_0001;
    vcpu.run_context.rdx = 0x6_0000_0002;
    let read = vcpu.decode_exit(&exit_fields(RDMSR_EXIT_REASON)).unwrap();
    assert_eq!((read.reason, read.msr), (VmExitReason::MsrRead, 0x10));
    let write = vcpu.decode_exit(&exit_fields(WRMSR_EXIT_REASON)).unwrap();
    assert_eq!((write.reason, write.msr_value), (VmExitReason::MsrWrite, 0x2_0000_0001));
    let cpuid = vcpu.decode_exit(&exit_fields(CPUID_EXIT_REASON)).unwrap();
    assert_eq!((cpuid.cpuid_leaf, cpuid.cpuid_subleaf), (1, 0x10));
    let fault = vcpu
        .decode_exit(&ExitFields {
            reason: EPT_VIOLATION_EXIT_REASON,
            interruption_info: 0,
            guest_physical_address: 0x7000,
            qualification: 2,
        })
        .unwrap();
    assert_eq!(
        (fault.reason, fault.fault_address, fault.fault_info),
        (VmExitReason::NestedPageFault, 0x7000, 2)
    );
    assert_eq!(vcpu.decode_exit(&exit_fields(2)), Err(Error::UnexpectedVmExit(2)));
}

#[test]
fn completed_instructions_leave_their_results_in_registers() {
    let mut vcpu = Vmx::enabled(1, 0x1000);
    vcpu.complete_hypercall(9).unwrap();
    assert_eq!(vcpu.run_context.rax, 9);
    vcpu.complete_msr_read(0x1234_5678_9abc_def0).unwrap();
    assert_eq!(vcpu.run_context.rax, 0x9abc_def0);
    assert_eq!(vcpu.run_context.rdx, 0x1234_5678);
    vcpu.complete_cpuid(&CpuidResult { eax: 1, ebx: 2, ecx: 3, edx: 4 }).unwrap();
    assert_eq!(
        (
            vcpu.run_context.rax,
            vcpu.run_context.rbx,
            vcpu.run_context.rcx,
            vcpu.run_context.rdx
        ),
        (1, 2, 3, 4)
    );
    assert_eq!(next_instruction(0x100, 3), 0x103);
}

#[test]
fn virtual_machine_is_active_until_disabled() {
    let mut vcpu = Vmx::enabled(1, 0x1000);
    assert_eq!(vcpu.require_active(), Ok(()));
    let second = vcpu.create_vcpu(0x3000, 0).unwrap();
    assert_eq!((second.revision_id(), second.vmcs_phys()), (1, 0x3000));
    assert!(vcpu.create_vcpu(0x3001, 0).is_err());
    assert!(vcpu.disable());
    assert_eq!(vcpu.require_active(), Err(Error::InvalidState));
    vcpu.run_context.rax = 5;
    assert_eq!(vcpu.reset(true), Err(Error::InvalidState));
    assert_eq!(vcpu.complete_hypercall(9), Err(Error::InvalidState));
    assert_eq!(vcpu.complete(), Err(Error::InvalidState));
    assert_eq!((vcpu.run_context.rax, vcpu.run_context.resume), (5, 0));
    assert_eq!(vcpu.complete_msr_read(7), Err(Error::InvalidState));
    assert_eq!((vcpu.run_context.rax, vcpu.run_context.resume), (7, 0));
}

#[test]
fn a_reset_forgets_the_registers_of_a_cleared_vcpu() {
    let mut vcpu = Vmx::enabled(1, 0x1000);
    vcpu.run_context.rax = 5;
    assert_eq!(vcpu.reset(false), Err(Error::ControlInstructionFailed));
    assert_eq!(vcpu.run_context.rax, 5);
    assert_eq!(vcpu.reset(true), Ok(()));
    assert_eq!(vcpu.run_context.rax, 0);
}

#[test]
fn enabling_checks_pages_and_processor() {
    assert_eq!(check_enable(0x1000, 0x2000, Some(BackendKind::IntelVmx)), Ok(()));
    assert_eq!(check_enable(0, 0x2000, Some(BackendKind::IntelVmx)), Err(Error::InvalidPage));
    assert_eq!(
        check_enable(0x1000, 0x2000, Some(BackendKind::AmdSvm)),
        Err(Error::UnsupportedCpu)
    );
    assert_eq!(feature_control_update(0), Ok(Some(5)));
    assert_eq!(feature_control_update(5), Ok(None));
    assert_eq!(feature_control_update(1), Err(Error::VirtualizationDisabled));
    assert_eq!(control_region_revision(0x8000_0007 | (4096 << 32), 0x1000, 0x2000), Ok(7));
    assert_eq!(
        control_region_revision(7 | (8191 << 32), 0x1000, 0x2000),
        Err(Error::ControlRegionTooLarge)
    );
    let failed = finish_enable(EnableOutcome::VmcsFailed, 7, 0x2000);
    assert!(matches!(
        failed,
        Err((EnableCleanup { leave_vmx: true, clear_vmxe: true }, Error::ControlInstructionFailed))
    ));
}

#[test]
fn controls_follow_the_capabilities() {
    let all = 0xffff_ffff_0000_0000u64;
    let caps = ControlCapabilities { pin: all, primary: all, secondary: all, exit: all, entry: all };
    let long = choose_controls(GuestBootMode::Long64, &caps).unwrap();
    assert_ne!(long.entry & ENTRY_IA32E_MODE, 0);
    let pvh = choose_controls(GuestBootMode::LinuxPvh32, &caps).unwrap();
    assert_eq!(pvh.entry & ENTRY_IA32E_MODE, 0);
    assert_ne!(pvh.secondary & 0x80, 0);
    let none = ControlCapabilities { pin: all, primary: 0, secondary: all, exit: all, entry: all };
    assert!(choose_controls(GuestBootMode::Long64, &none).is_err());
    assert_eq!(control_msrs(0).pin, IA32_VMX_PINBASED_CTLS);
    assert_eq!(control_msrs(1 << 55).pin, IA32_VMX_TRUE_PINBASED_CTLS);
}

#[test]
fn injection_waits_for_an_open_window() {
    assert!(can_inject_interrupt(1 << 9, 0));
    assert!(!can_inject_interrupt(0, 0));
    assert!(!can_inject_interrupt(1 << 9, 1));
    assert_eq!(interrupt_window_controls(0, true), INTERRUPT_WINDOW_EXITING);
    assert_eq!(interrupt_window_controls(INTERRUPT_WINDOW_EXITING | 8, false), 8);
    assert_eq!(interrupt_injection(0x40), 0x8000_0040);
    assert_eq!(general_protection_injection(), 0x8000_0b0d);
    assert_eq!(synchronized_entry_controls(EFER_LMA, 0), ENTRY_IA32E_MODE);
    assert_eq!(synchronized_entry_controls(0, ENTRY_IA32E_MODE | 4), 4);
}

#[test]
fn guest_registers_outside_the_list_are_refused() {
    let vcpu = Vmx::enabled(1, 0x1000);
    assert_eq!(vcpu.write_guest_msr(IA32_EFER, EFER_LME, 0, 0), Ok(EFER_LME));
    assert!(vcpu.write_guest_msr(0x10, 1, 0, 0).is_err());
    let words = initialize_guest_msr_lists(&[1, 2, 3, 4, 5, 6]);
    assert_eq!(words[0], GUEST_MSR_LIST[0] as u64);
}

#[test]
fn a_register_value_is_written_back_unchanged() {
    let mut vcpu = Vmx::enabled(1, 0x2000);
    vcpu.run_context.rcx = 0xc000_0080;
    vcpu.complete_msr_read(0x1234_5678_9abc_def0).unwrap();
    let exit = vcpu.decode_exit(&exit_fields(32)).unwrap();
    assert_eq!(exit.msr, 0xc000_0080);
    assert_eq!(exit.msr_value, 0x1234_5678_9abc_def0);
}

#[test]
fn assembly_context_offsets_include_all_guest_scratch_registers() {
    let offset_of = |context: VmxRunContext| {
        let words = context.to_words();
        8 * words.iter().position(|word| *word == 1).unwrap()
    };
    let empty = VmxRunContext::default();
    assert_eq!(offset_of(VmxRunContext { resume: 1, ..empty }), 80);
    assert_eq!(offset_of(VmxRunContext { rcx: 1, ..empty }), 88);
    assert_eq!(offset_of(VmxRunContext { r8: 1, ..empty }), 96);
    assert_eq!(offset_of(VmxRunContext { r11: 1, ..empty }), 120);
    assert_eq!(std::mem::size_of_val(&empty.to_words()), 128);
}

#[test]
fn registers_survive_the_entry_code() {
    let words: [u64; 16] = [1, 2, 3, 4, 5, 6, 7, 8, 9, 10, 11, 12, 13, 14, 15, 16];
    let context = VmxRunContext::from_words(&words);
    assert_eq!((context.rax, context.rdi, context.r15, context.r11), (1, 2, 10, 16));
    assert_eq!(context.to_words(), words);
}
