use mboot::abi::{
    PCI_DEVICE_FLAG_CLAIMABLE, PCI_DEVICE_FLAG_EPHEMERAL, PCI_DEVICE_FLAG_PARTITIONED,
    PCI_DEVICE_FLAG_READ_ONLY, PCI_DEVICE_STATE_ACTIVE, PCI_DEVICE_STATE_CLAIMED_DISABLED,
    PCI_DEVICE_STATE_QUARANTINED,
};
use mboot::device::{DeviceError, DeviceTable, MAX_DEVICES};
use mboot::manifest::{
    ManifestDevice, ManifestDeviceKind, AUTO_REQUESTER, DEVICE_FLAG_EPHEMERAL,
    DEVICE_FLAG_PARTITIONED, DEVICE_FLAG_READ_ONLY, DEVICE_FLAG_REQUIRED,
};
use mboot::pci::PciFunction;

fn policy(requester: u16, kind: ManifestDeviceKind) -> ManifestDevice {
    ManifestDevice {
        segment: 0,
        requester,
        kind,
        flags: DEVICE_FLAG_REQUIRED,
        domain_id: 2,
        storage_disk_guid: [0; 16],
        storage_partition_type_guid: [0; 16],
        storage_partition_guid: [0; 16],
    }
}

#[test]
fn claim_and_release_follow_the_signed_policy() {
    let functions = [PciFunction {
        requester: 0x00a0,
        class: 0x0c,
        subclass: 0x03,
        ..PciFunction::default()
    }];
    let mut table =
        DeviceTable::from_pci(&functions, None, &[policy(0x00a0, ManifestDeviceKind::Usb)])
            .unwrap();
    assert_ne!(
        table.query(2, 0).unwrap().flags & PCI_DEVICE_FLAG_CLAIMABLE,
        0
    );
    assert_eq!(table.claim(3, 0x00a0), Err(DeviceError::PermissionDenied));
    table.claim(2, 0x00a0).unwrap();
    assert_eq!(
        table.query(2, 0).unwrap().state,
        PCI_DEVICE_STATE_CLAIMED_DISABLED
    );
    table.activate(2, 0x00a0).unwrap();
    assert_eq!(table.query(2, 0).unwrap().state, PCI_DEVICE_STATE_ACTIVE);
    assert_eq!(table.release_domain(2), 1);
    assert_eq!(
        table.query(2, 0).unwrap().state,
        PCI_DEVICE_STATE_QUARANTINED
    );
}

#[test]
fn automatic_network_policy_assigns_only_ethernet_to_its_domain() {
    let functions = [
        PciFunction { requester: 0x0100, class: 2, subclass: 0, ..PciFunction::default() },
        PciFunction { requester: 0x0200, class: 2, subclass: 0x80, ..PciFunction::default() },
        PciFunction { requester: 0x0010, class: 3, subclass: 0, ..PciFunction::default() },
    ];
    let mut table = DeviceTable::from_pci(
        &functions, None, &[policy(AUTO_REQUESTER, ManifestDeviceKind::Network)],
    ).unwrap();
    assert!(table.can_claim(2, 0x0100).is_ok());
    assert_eq!(table.can_claim(3, 0x0100), Err(DeviceError::PermissionDenied));
    assert_eq!(table.can_claim(2, 0x0200), Err(DeviceError::PermissionDenied));
    assert_eq!(table.can_claim(2, 0x0010), Err(DeviceError::PermissionDenied));
    table.claim(2, 0x0100).unwrap();
    assert_eq!(table.query(2, 0).unwrap().owner_domain, 2);
}

#[test]
fn required_automatic_network_rejects_wifi_only_machine() {
    let functions = [PciFunction {
        requester: 0x0200, class: 2, subclass: 0x80, ..PciFunction::default()
    }];
    assert!(matches!(DeviceTable::from_pci(
        &functions, None, &[policy(AUTO_REQUESTER, ManifestDeviceKind::Network)],
    ), Err(DeviceError::DeviceUnavailable)));
}

#[test]
fn firmware_display_is_claimable_only_by_its_policy_domain() {
    let functions = [PciFunction {
        requester: 0x0010,
        class: 0x03,
        subclass: 0,
        ..PciFunction::default()
    }];
    let mut table = DeviceTable::from_pci(
        &functions,
        Some(0x0010),
        &[policy(0x0010, ManifestDeviceKind::Display)],
    )
    .unwrap();
    assert_ne!(
        table.query(2, 0).unwrap().flags & PCI_DEVICE_FLAG_CLAIMABLE,
        0
    );
    assert_eq!(table.claim(3, 0x0010), Err(DeviceError::PermissionDenied));
    table.claim(2, 0x0010).unwrap();
}

#[test]
fn ephemeral_policy_survives_claim_and_activation() {
    let functions = [PciFunction {
        requester: 0x0018,
        class: 0x01,
        subclass: 0,
        ..PciFunction::default()
    }];
    let mut ephemeral = policy(0x0018, ManifestDeviceKind::Block);
    ephemeral.flags |= DEVICE_FLAG_EPHEMERAL;
    let mut table = DeviceTable::from_pci(&functions, None, &[ephemeral]).unwrap();
    table.claim(2, 0x0018).unwrap();
    assert_eq!(table.query(2, 0).unwrap().flags, PCI_DEVICE_FLAG_EPHEMERAL);
    table.activate(2, 0x0018).unwrap();
    assert_eq!(table.query(2, 0).unwrap().flags, PCI_DEVICE_FLAG_EPHEMERAL);
}

#[test]
fn required_missing_or_wrong_class_devices_fail_closed() {
    let functions = [PciFunction {
        requester: 0x0010,
        class: 0x03,
        subclass: 0,
        ..PciFunction::default()
    }];
    assert!(matches!(
        DeviceTable::from_pci(
            &functions,
            None,
            &[policy(0x0018, ManifestDeviceKind::Block)]
        ),
        Err(DeviceError::DeviceUnavailable)
    ));
    assert!(matches!(
        DeviceTable::from_pci(
            &functions,
            None,
            &[policy(0x0010, ManifestDeviceKind::Block)]
        ),
        Err(DeviceError::InvalidPolicy)
    ));
}

#[test]
fn automatic_nvme_policy_selects_one_matching_controller_read_only() {
    let functions = [
        PciFunction {
            requester: 0x001f,
            class: 0x01,
            subclass: 0x06,
            ..PciFunction::default()
        },
        PciFunction {
            requester: 0x0100,
            class: 0x01,
            subclass: 0x08,
            ..PciFunction::default()
        },
    ];
    let mut nvme = policy(AUTO_REQUESTER, ManifestDeviceKind::Nvme);
    nvme.flags |= DEVICE_FLAG_READ_ONLY;
    let table = DeviceTable::from_pci(&functions, None, &[nvme]).unwrap();
    assert_eq!(table.query(2, 0).unwrap().flags, 0);
    assert_eq!(
        table.query(2, 1).unwrap().flags,
        PCI_DEVICE_FLAG_CLAIMABLE | PCI_DEVICE_FLAG_READ_ONLY
    );
}

#[test]
fn automatic_nvme_policy_assigns_every_matching_controller() {
    let functions = [
        PciFunction {
            requester: 0x0100,
            vendor: 0x144d,
            device: 0xa808,
            class: 0x01,
            subclass: 0x08,
        },
        PciFunction {
            requester: 0x0200,
            vendor: 0x8086,
            device: 0xf1a8,
            class: 0x01,
            subclass: 0x08,
        },
    ];
    let mut nvme = policy(AUTO_REQUESTER, ManifestDeviceKind::Nvme);
    nvme.flags |= DEVICE_FLAG_READ_ONLY;
    let table = DeviceTable::from_pci(&functions, None, &[nvme]).unwrap();
    for index in 0..2 {
        assert_ne!(
            table.query(2, index).unwrap().flags & PCI_DEVICE_FLAG_CLAIMABLE,
            0
        );
        assert_ne!(
            table.query(2, index).unwrap().flags & PCI_DEVICE_FLAG_READ_ONLY,
            0
        );
    }
}

#[test]
fn automatic_display_policy_assigns_every_gpu_to_the_hardware_domain() {
    let functions = [
        PciFunction {
            requester: 0x0010,
            class: 0x03,
            subclass: 0,
            ..PciFunction::default()
        },
        PciFunction {
            requester: 0x0100,
            class: 0x03,
            subclass: 2,
            ..PciFunction::default()
        },
        PciFunction {
            requester: 0x001f,
            class: 0x04,
            subclass: 3,
            ..PciFunction::default()
        },
    ];
    let table = DeviceTable::from_pci(
        &functions,
        None,
        &[policy(AUTO_REQUESTER, ManifestDeviceKind::Display)],
    )
    .unwrap();
    assert_ne!(
        table.query(2, 0).unwrap().flags & PCI_DEVICE_FLAG_CLAIMABLE,
        0
    );
    assert_ne!(
        table.query(2, 1).unwrap().flags & PCI_DEVICE_FLAG_CLAIMABLE,
        0
    );
    assert_eq!(table.query(2, 2).unwrap().flags, 0);
}

#[test]
fn display_domain_gets_read_only_host_bridge_configuration() {
    let functions = [
        PciFunction {
            requester: 0,
            class: 0x06,
            subclass: 0x00,
            ..PciFunction::default()
        },
        PciFunction {
            requester: 0x0010,
            class: 0x03,
            subclass: 0x00,
            ..PciFunction::default()
        },
    ];
    let table = DeviceTable::from_pci(
        &functions,
        None,
        &[policy(0x0010, ManifestDeviceKind::Display)],
    )
    .unwrap();

    let host = table.query(2, 0).unwrap();
    assert_eq!(host.flags, PCI_DEVICE_FLAG_READ_ONLY);
    assert!(table.can_read_config(2, 0));
    assert!(!table.can_read_config(3, 0));
    assert!(!table.can_read_config(2, 0x0010));
}

#[test]
fn automatic_vmd_policy_does_not_select_a_sata_controller() {
    let functions = [
        PciFunction {
            requester: 0x0070,
            vendor: 0x8086,
            device: 0x9a0b,
            class: 0x01,
            subclass: 0x04,
        },
        PciFunction {
            requester: 0x0080,
            vendor: 0x8086,
            device: 0xa0d3,
            class: 0x01,
            subclass: 0x06,
        },
    ];
    let mut vmd = policy(AUTO_REQUESTER, ManifestDeviceKind::Vmd);
    vmd.flags |= DEVICE_FLAG_READ_ONLY;
    let table = DeviceTable::from_pci(&functions, None, &[vmd]).unwrap();
    assert_eq!(
        table.query(2, 0).unwrap().flags,
        PCI_DEVICE_FLAG_CLAIMABLE | PCI_DEVICE_FLAG_READ_ONLY
    );
    assert_eq!(table.query(2, 1).unwrap().flags, 0);
}

#[test]
fn partition_policy_is_copied_into_the_guest_device_record() {
    let functions = [PciFunction {
        requester: 0x0070,
        class: 0x01,
        subclass: 0x04,
        ..PciFunction::default()
    }];
    let mut vmd = policy(0x0070, ManifestDeviceKind::Vmd);
    vmd.flags |= DEVICE_FLAG_PARTITIONED;
    vmd.storage_disk_guid = [1; 16];
    vmd.storage_partition_type_guid = [2; 16];
    vmd.storage_partition_guid = [3; 16];
    let table = DeviceTable::from_pci(&functions, None, &[vmd]).unwrap();
    let info = table.query(2, 0).unwrap();
    assert_ne!(info.flags & PCI_DEVICE_FLAG_PARTITIONED, 0);
    assert_eq!(info.storage_disk_guid, [1; 16]);
    assert_eq!(info.storage_partition_type_guid, [2; 16]);
    assert_eq!(info.storage_partition_guid, [3; 16]);
}

#[test]
fn a_claimed_device_has_no_second_owner_until_it_is_released() {
    let functions = [PciFunction { requester: 0x00a0, class: 4, ..PciFunction::default() }];
    let mut table =
        DeviceTable::from_pci(&functions, None, &[policy(0x00a0, ManifestDeviceKind::Audio)])
            .unwrap();
    assert_eq!(table.len(), 1);
    assert!(!table.is_empty());
    assert_eq!(table.can_release(2, 0x00a0), Err(DeviceError::PermissionDenied));
    table.claim(2, 0x00a0).unwrap();
    assert_eq!(table.claim(2, 0x00a0), Err(DeviceError::InvalidState));
    assert_eq!(table.claimed_requesters(2), vec![0x00a0]);
    assert_eq!(table.can_activate(2, 0x00a0), Ok(()));
    table.release(2, 0x00a0).unwrap();
    assert_eq!(table.claimed_requesters(2), vec![]);
    assert_eq!(table.can_claim(2, 0x00a0), Ok(()));
    assert_eq!(table.can_claim(2, 0x00a8), Err(DeviceError::DeviceUnavailable));
    assert!(!table.is_firmware_deferred(0x00a0));
}

#[test]
fn the_table_holds_the_first_functions_of_a_large_inventory() {
    let functions = [PciFunction::default(); MAX_DEVICES + 1];
    assert_eq!(DeviceTable::from_pci(&functions, None, &[]).unwrap().len(), MAX_DEVICES);
}

#[test]
fn claims_are_granted_exactly_to_the_policies_domains() {
    let functions = [
        PciFunction { requester: 0x00a0, class: 4, ..PciFunction::default() },
        PciFunction { requester: 0x00a8, class: 4, ..PciFunction::default() },
        PciFunction { requester: 0x00b0, class: 2, ..PciFunction::default() },
    ];
    let audio = policy(0x00a0, ManifestDeviceKind::Audio);
    let network = ManifestDevice { domain_id: 3, ..policy(0x00b0, ManifestDeviceKind::Network) };
    let table = DeviceTable::from_pci(&functions, None, &[audio, network]).unwrap();
    assert_eq!(table.len(), 3);
    for index in 0..3 {
        assert_eq!(table.query(2, index).unwrap().owner_domain, 0);
    }
    for (domain, requester, granted) in [
        (2, 0x00a0, true),
        (3, 0x00a0, false),
        (2, 0x00a8, false),
        (3, 0x00a8, false),
        (2, 0x00b0, false),
        (3, 0x00b0, true),
    ] {
        assert_eq!(table.can_claim(domain, requester).is_ok(), granted);
    }
}

#[test]
fn no_two_policies_select_one_function() {
    let functions = [PciFunction { requester: 0x00a0, class: 4, ..PciFunction::default() }];
    let named = policy(0x00a0, ManifestDeviceKind::Audio);
    let other = ManifestDevice { domain_id: 3, ..policy(0x00a0, ManifestDeviceKind::Other) };
    assert!(matches!(
        DeviceTable::from_pci(&functions, None, &[named, other]),
        Err(DeviceError::InvalidPolicy)
    ));
}

#[test]
fn a_released_device_can_be_claimed_again_by_its_domain_only() {
    let functions = [PciFunction { requester: 0x00a0, class: 4, ..PciFunction::default() }];
    let mut table =
        DeviceTable::from_pci(&functions, None, &[policy(0x00a0, ManifestDeviceKind::Audio)])
            .unwrap();
    table.claim(2, 0x00a0).unwrap();
    table.activate(2, 0x00a0).unwrap();
    table.release(2, 0x00a0).unwrap();
    assert_eq!(table.can_claim(3, 0x00a0), Err(DeviceError::PermissionDenied));
    assert_eq!(table.claim(2, 0x00a0), Ok(()));
}
