use mboot::abi::{DOMAIN_CAPABILITY_DEVICE_CLAIM, DOMAIN_CAPABILITY_DEVICE_QUERY};
use mboot::manifest::{
    LaunchManifest, ManifestDevice, ManifestDeviceKind, ManifestDomainRole, ManifestImageFormat,
    ManifestRestartPolicy, AUTO_REQUESTER, DEVICE_ENTRY_SIZE, DEVICE_FLAG_EPHEMERAL,
    DEVICE_FLAG_PARTITIONED, DEVICE_FLAG_READ_ONLY, DEVICE_FLAG_REQUIRED, DOMAIN_ENTRY_SIZE,
    DOMAIN_FLAG_AUTO_START, DOMAIN_FLAG_REQUIRED, EVENT_CHANNEL_ENTRY_SIZE, MANIFEST_HEADER_SIZE,
    MANIFEST_MAGIC, MANIFEST_VERSION,
};
use mboot::Error;
use sha2::{Digest, Sha256};

fn manifest() -> [u8; MANIFEST_HEADER_SIZE + DOMAIN_ENTRY_SIZE] {
    let mut bytes = [0; MANIFEST_HEADER_SIZE + DOMAIN_ENTRY_SIZE];
    let total_size = bytes.len() as u32;
    bytes[..8].copy_from_slice(&MANIFEST_MAGIC);
    bytes[8..10].copy_from_slice(&MANIFEST_VERSION.to_le_bytes());
    bytes[10..12].copy_from_slice(&(MANIFEST_HEADER_SIZE as u16).to_le_bytes());
    bytes[12..14].copy_from_slice(&(DOMAIN_ENTRY_SIZE as u16).to_le_bytes());
    bytes[14..16].copy_from_slice(&1_u16.to_le_bytes());
    bytes[16..20].copy_from_slice(&total_size.to_le_bytes());
    bytes[22..24].copy_from_slice(&(EVENT_CHANNEL_ENTRY_SIZE as u16).to_le_bytes());
    bytes[26..28].copy_from_slice(&(DEVICE_ENTRY_SIZE as u16).to_le_bytes());
    let entry = &mut bytes[MANIFEST_HEADER_SIZE..];
    entry[..4].copy_from_slice(&1_u32.to_le_bytes());
    entry[4..6].copy_from_slice(&(ManifestDomainRole::System.code()).to_le_bytes());
    entry[6..8].copy_from_slice(&(DOMAIN_FLAG_AUTO_START | DOMAIN_FLAG_REQUIRED).to_le_bytes());
    entry[8..16].copy_from_slice(&(2_u64 * 1024 * 1024).to_le_bytes());
    entry[16..18].copy_from_slice(&1_u16.to_le_bytes());
    entry[18] = ManifestRestartPolicy::Never.code();
    let path = b"\\EFI\\MBOOT\\MNU.ELF";
    entry[72..74].copy_from_slice(&(path.len() as u16).to_le_bytes());
    entry[112..112 + path.len()].copy_from_slice(path);
    bytes
}

fn manifest_with_device() -> Vec<u8> {
    let base = manifest();
    let mut bytes = vec![0; MANIFEST_HEADER_SIZE + 2 * DOMAIN_ENTRY_SIZE + DEVICE_ENTRY_SIZE];
    bytes[..MANIFEST_HEADER_SIZE].copy_from_slice(&base[..MANIFEST_HEADER_SIZE]);
    bytes[MANIFEST_HEADER_SIZE..MANIFEST_HEADER_SIZE + DOMAIN_ENTRY_SIZE]
        .copy_from_slice(&base[MANIFEST_HEADER_SIZE..]);
    let hardware = MANIFEST_HEADER_SIZE + DOMAIN_ENTRY_SIZE;
    bytes[hardware..hardware + DOMAIN_ENTRY_SIZE]
        .copy_from_slice(&base[MANIFEST_HEADER_SIZE..]);
    bytes[hardware..hardware + 4].copy_from_slice(&2_u32.to_le_bytes());
    bytes[hardware + 4..hardware + 6]
        .copy_from_slice(&(ManifestDomainRole::Hardware.code()).to_le_bytes());
    bytes[hardware + 32..hardware + 40].copy_from_slice(
        &(DOMAIN_CAPABILITY_DEVICE_QUERY | DOMAIN_CAPABILITY_DEVICE_CLAIM).to_le_bytes(),
    );
    let device = MANIFEST_HEADER_SIZE + 2 * DOMAIN_ENTRY_SIZE;
    bytes[device + 2..device + 4].copy_from_slice(&0x0010_u16.to_le_bytes());
    bytes[device + 4..device + 6]
        .copy_from_slice(&(ManifestDeviceKind::Block.code()).to_le_bytes());
    bytes[device + 6..device + 8]
        .copy_from_slice(&(DEVICE_FLAG_REQUIRED | DEVICE_FLAG_EPHEMERAL).to_le_bytes());
    bytes[device + 8..device + 12].copy_from_slice(&2_u32.to_le_bytes());
    bytes[14..16].copy_from_slice(&2_u16.to_le_bytes());
    let total_size = bytes.len() as u32;
    bytes[16..20].copy_from_slice(&total_size.to_le_bytes());
    bytes[24..26].copy_from_slice(&1_u16.to_le_bytes());
    bytes
}

#[test]
fn parses_a_fixed_domain_entry() {
    let bytes = manifest();
    let digest = Sha256::digest(bytes).into();
    let manifest = LaunchManifest::parse(&bytes, digest).unwrap();
    let domain = manifest.domain(0).unwrap();
    assert_eq!(manifest.domain_count(), 1);
    assert_eq!(domain.id, 1);
    assert_eq!(domain.role, ManifestDomainRole::System);
    assert_eq!(domain.memory_size, 2 * 1024 * 1024);
    assert_eq!(domain.restart_policy, ManifestRestartPolicy::Never);
    assert_eq!(domain.image_format, ManifestImageFormat::NativeElf);
    assert_eq!(domain.image_path, "\\EFI\\MBOOT\\MNU.ELF");
    assert!(domain.auto_starts());
    assert!(domain.is_required());
}

#[test]
fn rejects_a_changed_manifest() {
    let mut bytes = manifest();
    let digest = Sha256::digest(bytes).into();
    bytes[MANIFEST_HEADER_SIZE] = 9;
    assert_eq!(
        LaunchManifest::parse(&bytes, digest),
        Err(Error::ManifestDigestMismatch)
    );
}

#[test]
fn rejects_parent_directory_paths() {
    let mut bytes = manifest();
    let path = b"\\EFI\\..\\MNU.ELF";
    bytes[MANIFEST_HEADER_SIZE + 72..MANIFEST_HEADER_SIZE + 74]
        .copy_from_slice(&(path.len() as u16).to_le_bytes());
    bytes[MANIFEST_HEADER_SIZE + 112..192].fill(0);
    bytes[MANIFEST_HEADER_SIZE + 112..MANIFEST_HEADER_SIZE + 112 + path.len()]
        .copy_from_slice(path);
    let digest = Sha256::digest(bytes).into();
    assert_eq!(
        LaunchManifest::parse(&bytes, digest),
        Err(Error::InvalidManifest)
    );
}

#[test]
fn device_query_capability_belongs_only_to_hardware_domains() {
    let mut bytes = manifest();
    bytes[MANIFEST_HEADER_SIZE + 32..MANIFEST_HEADER_SIZE + 40]
        .copy_from_slice(&DOMAIN_CAPABILITY_DEVICE_QUERY.to_le_bytes());
    let digest = Sha256::digest(bytes).into();
    assert_eq!(
        LaunchManifest::parse(&bytes, digest),
        Err(Error::InvalidManifest)
    );

    bytes[MANIFEST_HEADER_SIZE + 4..MANIFEST_HEADER_SIZE + 6]
        .copy_from_slice(&(ManifestDomainRole::Hardware.code()).to_le_bytes());
    let digest = Sha256::digest(bytes).into();
    assert!(LaunchManifest::parse(&bytes, digest).is_ok());
}

#[test]
fn parses_a_device_policy_for_a_capable_hardware_domain() {
    let bytes = manifest_with_device();
    let digest = Sha256::digest(&bytes).into();
    let manifest = LaunchManifest::parse(&bytes, digest).unwrap();
    assert_eq!(manifest.device_count(), 1);
    assert_eq!(
        manifest.device(0).unwrap(),
        ManifestDevice {
            segment: 0,
            requester: 0x0010,
            kind: ManifestDeviceKind::Block,
            flags: DEVICE_FLAG_REQUIRED | DEVICE_FLAG_EPHEMERAL,
            domain_id: 2,
            storage_disk_guid: [0; 16],
            storage_partition_type_guid: [0; 16],
            storage_partition_guid: [0; 16],
        }
    );
    assert!(manifest.device(0).unwrap().is_ephemeral());
}

#[test]
fn parses_an_automatic_read_only_nvme_policy() {
    let mut bytes = manifest_with_device();
    let device = MANIFEST_HEADER_SIZE + 2 * DOMAIN_ENTRY_SIZE;
    bytes[device + 2..device + 4].copy_from_slice(&AUTO_REQUESTER.to_le_bytes());
    bytes[device + 4..device + 6]
        .copy_from_slice(&(ManifestDeviceKind::Nvme.code()).to_le_bytes());
    bytes[device + 6..device + 8]
        .copy_from_slice(&(DEVICE_FLAG_REQUIRED | DEVICE_FLAG_READ_ONLY).to_le_bytes());

    let digest = Sha256::digest(&bytes).into();
    let manifest = LaunchManifest::parse(&bytes, digest).unwrap();
    let device = manifest.device(0).unwrap();
    assert_eq!(device.requester, AUTO_REQUESTER);
    assert_eq!(device.kind, ManifestDeviceKind::Nvme);
    assert!(device.is_read_only());
    assert!(!device.is_ephemeral());
}

#[test]
fn parses_an_automatic_display_policy() {
    let mut bytes = manifest_with_device();
    let device = MANIFEST_HEADER_SIZE + 2 * DOMAIN_ENTRY_SIZE;
    bytes[device + 2..device + 4].copy_from_slice(&AUTO_REQUESTER.to_le_bytes());
    bytes[device + 4..device + 6]
        .copy_from_slice(&(ManifestDeviceKind::Display.code()).to_le_bytes());
    bytes[device + 6..device + 8].copy_from_slice(&DEVICE_FLAG_REQUIRED.to_le_bytes());

    let digest = Sha256::digest(&bytes).into();
    let manifest = LaunchManifest::parse(&bytes, digest).unwrap();
    let device = manifest.device(0).unwrap();
    assert_eq!(device.requester, AUTO_REQUESTER);
    assert_eq!(device.kind, ManifestDeviceKind::Display);
    assert!(device.is_required());
}

#[test]
fn parses_an_automatic_network_policy() {
    let mut bytes = manifest_with_device();
    let offset = MANIFEST_HEADER_SIZE + 2 * DOMAIN_ENTRY_SIZE;
    bytes[offset + 2..offset + 4].copy_from_slice(&AUTO_REQUESTER.to_le_bytes());
    bytes[offset + 4..offset + 6]
        .copy_from_slice(&(ManifestDeviceKind::Network.code()).to_le_bytes());
    bytes[offset + 6..offset + 8].copy_from_slice(&DEVICE_FLAG_REQUIRED.to_le_bytes());
    let digest = Sha256::digest(&bytes).into();
    let manifest = LaunchManifest::parse(&bytes, digest).unwrap();
    assert_eq!(manifest.device(0).unwrap().kind, ManifestDeviceKind::Network);
}

#[test]
fn parses_an_enrolled_partition_policy() {
    let mut bytes = manifest_with_device();
    let offset = MANIFEST_HEADER_SIZE + 2 * DOMAIN_ENTRY_SIZE;
    bytes[offset + 6..offset + 8]
        .copy_from_slice(&(DEVICE_FLAG_REQUIRED | DEVICE_FLAG_PARTITIONED).to_le_bytes());
    bytes[offset + 12..offset + 28].copy_from_slice(&[1; 16]);
    bytes[offset + 28..offset + 44].copy_from_slice(&[2; 16]);
    bytes[offset + 44..offset + 60].copy_from_slice(&[3; 16]);

    let digest = Sha256::digest(&bytes).into();
    let device = LaunchManifest::parse(&bytes, digest)
        .unwrap()
        .device(0)
        .unwrap();
    assert!(device.is_partitioned());
    assert_eq!(device.storage_disk_guid, [1; 16]);
    assert_eq!(device.storage_partition_type_guid, [2; 16]);
    assert_eq!(device.storage_partition_guid, [3; 16]);
}

#[test]
fn rejects_a_block_policy_with_read_only_and_ephemeral_modes() {
    let mut bytes = manifest_with_device();
    let device = MANIFEST_HEADER_SIZE + 2 * DOMAIN_ENTRY_SIZE;
    bytes[device + 6..device + 8].copy_from_slice(
        &(DEVICE_FLAG_REQUIRED | DEVICE_FLAG_EPHEMERAL | DEVICE_FLAG_READ_ONLY).to_le_bytes(),
    );

    let digest = Sha256::digest(&bytes).into();
    assert_eq!(
        LaunchManifest::parse(&bytes, digest),
        Err(Error::InvalidManifest)
    );
}

#[test]
fn verifies_the_domain_image_digest() {
    let mut bytes = manifest();
    let image = b"mnu image";
    bytes[MANIFEST_HEADER_SIZE + 40..MANIFEST_HEADER_SIZE + 72]
        .copy_from_slice(&Sha256::digest(image));
    let digest = Sha256::digest(bytes).into();
    let domain = LaunchManifest::parse(&bytes, digest)
        .unwrap()
        .domain(0)
        .unwrap();
    assert_eq!(domain.verify_image(image), Ok(()));
    assert_eq!(
        domain.verify_image(b"changed image"),
        Err(Error::ImageDigestMismatch)
    );
}

#[test]
fn parses_linux_pvh_boot_assets() {
    let mut bytes = manifest();
    let entry = &mut bytes[MANIFEST_HEADER_SIZE..];
    entry[4..6].copy_from_slice(&(ManifestDomainRole::Hardware.code()).to_le_bytes());
    entry[20] = ManifestImageFormat::LinuxPvh.code();
    let initramfs = br"\EFI\MBOOT\DRIVER.CPIO";
    let command_line = b"console=ttyS0 init=/init";
    entry[74..76].copy_from_slice(&(initramfs.len() as u16).to_le_bytes());
    entry[76..78].copy_from_slice(&(command_line.len() as u16).to_le_bytes());
    entry[80..112].copy_from_slice(&Sha256::digest(b"initramfs"));
    entry[192..192 + initramfs.len()].copy_from_slice(initramfs);
    entry[272..272 + command_line.len()].copy_from_slice(command_line);
    let digest = Sha256::digest(bytes).into();
    let domain = LaunchManifest::parse(&bytes, digest)
        .unwrap()
        .domain(0)
        .unwrap();
    assert_eq!(domain.image_format, ManifestImageFormat::LinuxPvh);
    assert_eq!(domain.initramfs_path, Some("\\EFI\\MBOOT\\DRIVER.CPIO"));
    assert_eq!(domain.command_line, "console=ttyS0 init=/init");
    assert_eq!(domain.verify_initramfs(b"initramfs"), Ok(()));
}

/// Two Domains and an event channel for each pair of ends.
fn manifest_with_channels(ends: &[[u32; 4]]) -> Vec<u8> {
    let mut bytes = manifest_with_device();
    bytes.truncate(MANIFEST_HEADER_SIZE + 2 * DOMAIN_ENTRY_SIZE);
    for words in ends {
        let start = bytes.len();
        for word in words {
            bytes.extend_from_slice(&word.to_le_bytes());
        }
        bytes.resize(start + EVENT_CHANNEL_ENTRY_SIZE, 0);
    }
    bytes[20..22].copy_from_slice(&(ends.len() as u16).to_le_bytes());
    bytes[24..26].copy_from_slice(&0_u16.to_le_bytes());
    let total_size = bytes.len() as u32;
    bytes[16..20].copy_from_slice(&total_size.to_le_bytes());
    bytes
}

fn is_accepted(bytes: &[u8]) -> bool {
    match LaunchManifest::parse(bytes, Sha256::digest(bytes).into()) {
        Ok(_) => true,
        Err(error) => {
            assert_eq!(error, Error::InvalidManifest);
            false
        }
    }
}

#[test]
fn channels_join_ports_of_two_known_domains() {
    let bytes = manifest_with_channels(&[[1, 7, 2, 7], [2, 8, 1, 9]]);
    let manifest = LaunchManifest::parse(&bytes, Sha256::digest(&bytes).into()).unwrap();
    assert_eq!(
        bytes.len(),
        MANIFEST_HEADER_SIZE + 2 * DOMAIN_ENTRY_SIZE + 2 * EVENT_CHANNEL_ENTRY_SIZE
    );
    assert_eq!(manifest.event_channel_count(), 2);
    let channel = manifest.event_channel(1).unwrap();
    assert_eq!((channel.domain_a, channel.port_a), (2, 8));
    assert_eq!((channel.domain_b, channel.port_b), (1, 9));
    assert_eq!(manifest.event_channel(2), Err(Error::InvalidManifest));

    assert!(!is_accepted(&manifest_with_channels(&[[1, 7, 1, 8]])));
    assert!(!is_accepted(&manifest_with_channels(&[[1, 7, 3, 8]])));
    assert!(!is_accepted(&manifest_with_channels(&[[1, 0, 2, 8]])));
    assert!(!is_accepted(&manifest_with_channels(&[[1, 7, 2, 7], [2, 8, 1, 7]])));
}

#[test]
fn domains_and_named_devices_are_not_repeated() {
    let mut twice = manifest_with_channels(&[]);
    assert!(is_accepted(&twice));
    let second = MANIFEST_HEADER_SIZE + DOMAIN_ENTRY_SIZE;
    twice[second..second + 4].copy_from_slice(&1_u32.to_le_bytes());
    assert!(!is_accepted(&twice));

    let mut devices = manifest_with_device();
    let first = MANIFEST_HEADER_SIZE + 2 * DOMAIN_ENTRY_SIZE;
    let entry = devices[first..first + DEVICE_ENTRY_SIZE].to_vec();
    devices.extend_from_slice(&entry);
    let total_size = devices.len() as u32;
    devices[16..20].copy_from_slice(&total_size.to_le_bytes());
    devices[24..26].copy_from_slice(&2_u16.to_le_bytes());
    assert!(!is_accepted(&devices));
    devices[first + DEVICE_ENTRY_SIZE + 2] = 0x18;
    assert!(is_accepted(&devices));
    devices[first + 8..first + 12].copy_from_slice(&1_u32.to_le_bytes());
    assert!(!is_accepted(&devices));
}
