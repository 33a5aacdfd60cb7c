//! The signed launch manifest: which Domains, channels and devices exist.

use vstd::prelude::*;
use vstd::string::*;
use vstd::utf8::*;

use sha2::Digest;

use crate::abi::DOMAIN_CAPABILITY_DEVICE_CLAIM;
use crate::bits::lemma_page_offset;
use crate::bytes::{
    all_zero, copy_16, copy_32, read_u16, read_u32, read_u64, same_bytes, u16_at, u32_at, u64_at,
    zeros,
};
use crate::Error;

verus! {

pub const MANIFEST_VERSION: u16 = 6;

pub const MANIFEST_HEADER_SIZE: usize = 32;

pub const DOMAIN_ENTRY_SIZE: usize = 384;

pub const EVENT_CHANNEL_ENTRY_SIZE: usize = 32;

pub const DEVICE_ENTRY_SIZE: usize = 64;

pub const MAX_DOMAIN_COUNT: usize = 8;

pub const MAX_EVENT_CHANNEL_COUNT: usize = 64;

pub const MAX_DEVICE_COUNT: usize = 64;

pub const DOMAIN_FLAG_AUTO_START: u16 = 1;

pub const DOMAIN_FLAG_REQUIRED: u16 = 2;

pub const DOMAIN_FLAGS_KNOWN: u16 = 3;

pub const DEVICE_FLAG_REQUIRED: u16 = 1;

pub const DEVICE_FLAG_EPHEMERAL: u16 = 2;

pub const DEVICE_FLAG_READ_ONLY: u16 = 4;

pub const DEVICE_FLAG_PARTITIONED: u16 = 8;

pub const DEVICE_FLAG_WRITABLE: u16 = 16;

pub const DEVICE_FLAGS_KNOWN: u16 = 31;

pub const DOMAIN_CAPABILITIES_KNOWN: u64 = 3;

/// The requester field of a policy that selects its devices by kind.
pub const AUTO_REQUESTER: u16 = 0xffff;

/// `MBLHV1` and two zero bytes.
pub const MANIFEST_MAGIC: [u8; 8] = [0x4d, 0x42, 0x4c, 0x48, 0x56, 0x31, 0, 0];

#[derive(Clone, Copy, Debug, PartialEq, Eq, Structural)]
pub enum ManifestDomainRole {
    System,
    Hardware,
    Application,
}

#[derive(Clone, Copy, Debug, PartialEq, Eq, Structural)]
pub enum ManifestRestartPolicy {
    Never,
    OnFailure,
    Always,
}

#[derive(Clone, Copy, Debug, PartialEq, Eq, Structural)]
pub enum ManifestImageFormat {
    NativeElf,
    LinuxPvh,
}

#[derive(Clone, Copy, Debug, PartialEq, Eq, Structural)]
pub enum ManifestDeviceKind {
    Other,
    Display,
    Block,
    Network,
    Usb,
    Audio,
    Nvme,
    Vmd,
}

pub open spec fn role_of(code: u16) -> Option<ManifestDomainRole> {
    if code == 1 {
        Some(ManifestDomainRole::System)
    } else if code == 2 {
        Some(ManifestDomainRole::Hardware)
    } else if code == 3 {
        Some(ManifestDomainRole::Application)
    } else {
        None
    }
}

pub open spec fn restart_policy_of(code: u8) -> Option<ManifestRestartPolicy> {
    if code == 0 {
        Some(ManifestRestartPolicy::Never)
    } else if code == 1 {
        Some(ManifestRestartPolicy::OnFailure)
    } else if code == 2 {
        Some(ManifestRestartPolicy::Always)
    } else {
        None
    }
}

pub open spec fn image_format_of(code: u8) -> Option<ManifestImageFormat> {
    if code == 0 {
        Some(ManifestImageFormat::NativeElf)
    } else if code == 1 {
        Some(ManifestImageFormat::LinuxPvh)
    } else {
        None
    }
}

pub open spec fn device_kind_of(code: u16) -> Option<ManifestDeviceKind> {
    if code == 0 {
        Some(ManifestDeviceKind::Other)
    } else if code == 1 {
        Some(ManifestDeviceKind::Display)
    } else if code == 2 {
        Some(ManifestDeviceKind::Block)
    } else if code == 3 {
        Some(ManifestDeviceKind::Network)
    } else if code == 4 {
        Some(ManifestDeviceKind::Usb)
    } else if code == 5 {
        Some(ManifestDeviceKind::Audio)
    } else if code == 6 {
        Some(ManifestDeviceKind::Nvme)
    } else if code == 7 {
        Some(ManifestDeviceKind::Vmd)
    } else {
        None
    }
}

impl ManifestDomainRole {
    /// The number that stands for the role in a manifest.
    pub fn code(self) -> (r: u16)
        ensures
            role_of(r) == Some(self),
    {
        match self {
            ManifestDomainRole::System => 1,
            ManifestDomainRole::Hardware => 2,
            ManifestDomainRole::Application => 3,
        }
    }
}

impl ManifestRestartPolicy {
    /// The number that stands for the policy in a manifest.
    pub fn code(self) -> (r: u8)
        ensures
            restart_policy_of(r) == Some(self),
    {
        match self {
            ManifestRestartPolicy::Never => 0,
            ManifestRestartPolicy::OnFailure => 1,
            ManifestRestartPolicy::Always => 2,
        }
    }
}

impl ManifestImageFormat {
    /// The number that stands for the format in a manifest.
    pub fn code(self) -> (r: u8)
        ensures
            image_format_of(r) == Some(self),
    {
        match self {
            ManifestImageFormat::NativeElf => 0,
            ManifestImageFormat::LinuxPvh => 1,
        }
    }
}

impl ManifestDeviceKind {
    /// The number that stands for the kind in a manifest.
    pub fn code(self) -> (r: u16)
        ensures
            device_kind_of(r) == Some(self),
    {
        match self {
            ManifestDeviceKind::Other => 0,
            ManifestDeviceKind::Display => 1,
            ManifestDeviceKind::Block => 2,
            ManifestDeviceKind::Network => 3,
            ManifestDeviceKind::Usb => 4,
            ManifestDeviceKind::Audio => 5,
            ManifestDeviceKind::Nvme => 6,
            ManifestDeviceKind::Vmd => 7,
        }
    }
}

#[derive(Clone, Copy, Debug, PartialEq, Eq)]
pub struct ManifestDomain<'a> {
    pub id: u32,
    pub role: ManifestDomainRole,
    pub flags: u16,
    pub memory_size: u64,
    pub vcpu_count: u16,
    pub restart_policy: ManifestRestartPolicy,
    pub max_restarts: u8,
    pub image_format: ManifestImageFormat,
    pub capabilities: u64,
    pub image_sha256: [u8; 32],
    pub image_path: &'a str,
    pub initramfs_sha256: [u8; 32],
    pub initramfs_path: Option<&'a str>,
    pub command_line: &'a str,
}

#[derive(Clone, Copy, Debug, PartialEq, Eq, Structural)]
pub struct ManifestEventChannel {
    pub domain_a: u32,
    pub port_a: u32,
    pub domain_b: u32,
    pub port_b: u32,
}

#[derive(Clone, Copy, Debug, PartialEq, Eq)]
pub struct ManifestDevice {
    pub segment: u16,
    pub requester: u16,
    pub kind: ManifestDeviceKind,
    pub flags: u16,
    pub domain_id: u32,
    pub storage_disk_guid: [u8; 16],
    pub storage_partition_type_guid: [u8; 16],
    pub storage_partition_guid: [u8; 16],
}

impl ManifestDevice {
    pub open spec fn has_flag(self, flag: u16) -> bool {
        self.flags & flag != 0
    }

    pub fn is_required(self) -> (r: bool)
        ensures
            r == self.has_flag(DEVICE_FLAG_REQUIRED),
    {
        self.flags & DEVICE_FLAG_REQUIRED != 0
    }

    pub fn is_ephemeral(self) -> (r: bool)
        ensures
            r == self.has_flag(DEVICE_FLAG_EPHEMERAL),
    {
        self.flags & DEVICE_FLAG_EPHEMERAL != 0
    }

    pub fn is_read_only(self) -> (r: bool)
        ensures
            r == self.has_flag(DEVICE_FLAG_READ_ONLY),
    {
        self.flags & DEVICE_FLAG_READ_ONLY != 0
    }

    pub fn is_partitioned(self) -> (r: bool)
        ensures
            r == self.has_flag(DEVICE_FLAG_PARTITIONED),
    {
        self.flags & DEVICE_FLAG_PARTITIONED != 0
    }

    pub fn is_writable(self) -> (r: bool)
        ensures
            r == self.has_flag(DEVICE_FLAG_WRITABLE),
    {
        self.flags & DEVICE_FLAG_WRITABLE != 0
    }
}

/// The SHA-256 digest of a byte string.
pub uninterp spec fn sha256_digest(data: Seq<u8>) -> Seq<u8>;

/// Hashes `data` with `sha2::Sha256::digest`, whose result depends on the bytes
/// alone. The digest is named, not computed: nothing is claimed of its value.
#[verifier::external_body]
pub(crate) fn sha256(data: &[u8]) -> (r: [u8; 32])
    ensures
        r@ == sha256_digest(data@),
{
    sha2::Sha256::digest(data).into()
}

/// Decodes with `core::str::from_utf8`, which succeeds exactly on valid UTF-8 and
/// gives back a string of the same bytes.
#[verifier::external_body]
pub(crate) fn utf8_str(data: &[u8]) -> (r: Option<&str>)
    ensures
        r is Some <==> valid_utf8(data@),
        r matches Some(s) ==> s.spec_bytes() == data@,
{
    core::str::from_utf8(data).ok()
}

impl<'a> ManifestDomain<'a> {
    pub fn auto_starts(self) -> (r: bool)
        ensures
            r == (self.flags & DOMAIN_FLAG_AUTO_START != 0),
    {
        self.flags & DOMAIN_FLAG_AUTO_START != 0
    }

    pub fn is_required(self) -> (r: bool)
        ensures
            r == (self.flags & DOMAIN_FLAG_REQUIRED != 0),
    {
        self.flags & DOMAIN_FLAG_REQUIRED != 0
    }

    /// Accepts an image whose digest is the one the manifest names.
    pub fn verify_image(self, image: &[u8]) -> (r: Result<(), Error>)
        ensures
            r == digest_verdict(sha256_digest(image@), self.image_sha256@),
    {
        let actual = sha256(image);
        check_digest(&actual, &self.image_sha256)
    }

    /// Accepts an initramfs whose digest is the one the manifest names.
    pub fn verify_initramfs(self, image: &[u8]) -> (r: Result<(), Error>)
        ensures
            r == (if self.initramfs_path is None {
                Err(Error::InvalidManifest)
            } else {
                digest_verdict(sha256_digest(image@), self.initramfs_sha256@)
            }),
    {
        if self.initramfs_path.is_none() {
            return Err(Error::InvalidManifest);
        }
        let actual = sha256(image);
        check_digest(&actual, &self.initramfs_sha256)
    }
}

/// What an asset with digest `actual` gets where `expected` was signed.
pub open spec fn digest_verdict(actual: Seq<u8>, expected: Seq<u8>) -> Result<(), Error> {
    if actual == expected {
        Ok(())
    } else {
        Err(Error::ImageDigestMismatch)
    }
}

/// Accepts a loaded asset when its digest is the expected one.
pub fn check_digest(actual: &[u8; 32], expected: &[u8; 32]) -> (r: Result<(), Error>)
    ensures
        r == digest_verdict(actual@, expected@),
{
    if same_bytes(actual, expected) {
        Ok(())
    } else {
        Err(Error::ImageDigestMismatch)
    }
}

/// The bytes of Domain entry `index`.
pub open spec fn domain_entry(b: Seq<u8>, index: int) -> Seq<u8> {
    b.subrange(32 + index * 384, 32 + index * 384 + 384)
}

/// The bytes of event channel entry `index`, behind `domains` Domain entries.
pub open spec fn channel_entry(b: Seq<u8>, domains: int, index: int) -> Seq<u8> {
    b.subrange(32 + domains * 384 + index * 32, 32 + domains * 384 + index * 32 + 32)
}

/// The bytes of device entry `index`, behind the Domain and channel entries.
pub open spec fn device_entry(b: Seq<u8>, domains: int, channels: int, index: int) -> Seq<u8> {
    b.subrange(
        32 + domains * 384 + channels * 32 + index * 64,
        32 + domains * 384 + channels * 32 + index * 64 + 64,
    )
}

pub open spec fn is_control_char(c: char) -> bool {
    c as u32 <= 0x1f || 0x7f <= c as u32 <= 0x9f
}

/// Whether the component that starts at `i` is `..`.
pub open spec fn parent_component_at(path: Seq<char>, i: int) -> bool {
    &&& 0 <= i
    &&& i + 2 <= path.len()
    &&& path[i] == '.'
    &&& path[i + 1] == '.'
    &&& (i == 0 || path[i - 1] == '\\')
    &&& (i + 2 == path.len() || path[i + 2] == '\\')
}

/// An absolute UEFI path: it starts at the volume's root, is longer than that,
/// holds no control character and no slash, and never climbs to a parent.
pub open spec fn is_uefi_path(path: Seq<char>) -> bool {
    &&& encode_utf8(path).len() > 1
    &&& path.len() > 0
    &&& path[0] == '\\'
    &&& forall|i: int| 0 <= i < path.len() ==> #[trigger] path[i] != '/' && !is_control_char(path[i])
    &&& forall|i: int| !#[trigger] parent_component_at(path, i)
}

/// Whether the bytes are the UTF-8 of an absolute UEFI path.
pub open spec fn is_path_bytes(raw: Seq<u8>) -> bool {
    valid_utf8(raw) && is_uefi_path(decode_utf8(raw))
}

pub open spec fn image_path_bytes(e: Seq<u8>) -> Seq<u8> {
    e.subrange(112, 112 + u16_at(e, 72))
}

pub open spec fn initramfs_path_bytes(e: Seq<u8>) -> Seq<u8> {
    e.subrange(192, 192 + u16_at(e, 74))
}

pub open spec fn command_line_bytes(e: Seq<u8>) -> Seq<u8> {
    e.subrange(272, 272 + u16_at(e, 76))
}

/// The rules on the fixed fields of a Domain entry.
pub open spec fn domain_fields_valid(e: Seq<u8>) -> bool {
    &&& role_of(u16_at(e, 4)) is Some
    &&& restart_policy_of(e[18]) is Some
    &&& image_format_of(e[20]) is Some
    &&& u32_at(e, 0) != 0
    &&& u16_at(e, 6) & !DOMAIN_FLAGS_KNOWN == 0
    &&& u64_at(e, 8) != 0
    &&& u64_at(e, 8) % 0x1000 == 0
    &&& u16_at(e, 16) != 0
    &&& (e[18] == 0) == (e[19] == 0)
    &&& zeros(e, 21, 32)
    &&& zeros(e, 78, 80)
    &&& u64_at(e, 32) & !DOMAIN_CAPABILITIES_KNOWN == 0
    &&& role_of(u16_at(e, 4)) != Some(ManifestDomainRole::Hardware) ==> u64_at(e, 32) == 0
}

/// The rules on the three strings of a Domain entry.
pub open spec fn domain_strings_valid(e: Seq<u8>) -> bool {
    &&& 0 < u16_at(e, 72) <= 80
    &&& u16_at(e, 74) <= 80
    &&& u16_at(e, 76) <= 96
    &&& zeros(e, 112 + u16_at(e, 72), 192)
    &&& zeros(e, 192 + u16_at(e, 74), 272)
    &&& zeros(e, 272 + u16_at(e, 76), 384)
    &&& is_path_bytes(image_path_bytes(e))
    &&& u16_at(e, 74) != 0 ==> is_path_bytes(initramfs_path_bytes(e))
    &&& u16_at(e, 74) == 0 ==> zeros(e, 80, 112)
    &&& valid_utf8(command_line_bytes(e))
    &&& is_ascii_chars(decode_utf8(command_line_bytes(e)))
    &&& e[20] == 0 ==> u16_at(e, 76) == 0
    &&& e[20] == 0 && u16_at(e, 4) != 1 ==> u16_at(e, 74) == 0
    &&& e[20] == 1 ==> u16_at(e, 4) == 2
}

/// Whether a Domain entry obeys every rule.
pub open spec fn domain_valid(e: Seq<u8>) -> bool {
    domain_fields_valid(e) && domain_strings_valid(e)
}

impl<'a> ManifestDomain<'a> {
    /// The fields are those of the entry `e`.
    pub open spec fn matches_entry(self, e: Seq<u8>) -> bool {
        &&& self.id == u32_at(e, 0)
        &&& Some(self.role) == role_of(u16_at(e, 4))
        &&& self.flags == u16_at(e, 6)
        &&& self.memory_size == u64_at(e, 8)
        &&& self.vcpu_count == u16_at(e, 16)
        &&& Some(self.restart_policy) == restart_policy_of(e[18])
        &&& self.max_restarts == e[19]
        &&& Some(self.image_format) == image_format_of(e[20])
        &&& self.capabilities == u64_at(e, 32)
        &&& self.image_sha256@ == e.subrange(40, 72)
        &&& self.image_path.spec_bytes() == image_path_bytes(e)
        &&& self.initramfs_sha256@ == e.subrange(80, 112)
        &&& self.initramfs_path is Some == (u16_at(e, 74) != 0)
        &&& self.initramfs_path matches Some(p) ==> p.spec_bytes() == initramfs_path_bytes(e)
        &&& self.command_line.spec_bytes() == command_line_bytes(e)
    }
}

pub open spec fn channel_of(e: Seq<u8>) -> ManifestEventChannel {
    ManifestEventChannel {
        domain_a: u32_at(e, 0),
        port_a: u32_at(e, 4),
        domain_b: u32_at(e, 8),
        port_b: u32_at(e, 12),
    }
}

/// A channel joins ports of two different Domains; nothing follows its fields.
pub open spec fn channel_valid(e: Seq<u8>) -> bool {
    let c = channel_of(e);
    &&& c.domain_a != 0
    &&& c.domain_b != 0
    &&& c.domain_a != c.domain_b
    &&& c.port_a != 0
    &&& c.port_b != 0
    &&& zeros(e, 16, 32)
}

impl ManifestDevice {
    /// The fields are those of the entry `e`.
    pub open spec fn matches_entry(self, e: Seq<u8>) -> bool {
        &&& self.segment == u16_at(e, 0)
        &&& self.requester == u16_at(e, 2)
        &&& Some(self.kind) == device_kind_of(u16_at(e, 4))
        &&& self.flags == u16_at(e, 6)
        &&& self.domain_id == u32_at(e, 8)
        &&& self.storage_disk_guid@ == e.subrange(12, 28)
        &&& self.storage_partition_type_guid@ == e.subrange(28, 44)
        &&& self.storage_partition_guid@ == e.subrange(44, 60)
    }
}

pub open spec fn is_storage_kind(kind: ManifestDeviceKind) -> bool {
    kind == ManifestDeviceKind::Block || kind == ManifestDeviceKind::Nvme || kind
        == ManifestDeviceKind::Vmd
}

/// The kinds that a policy may select without naming a requester.
pub open spec fn is_automatic_kind(kind: ManifestDeviceKind) -> bool {
    kind == ManifestDeviceKind::Display || kind == ManifestDeviceKind::Nvme || kind
        == ManifestDeviceKind::Vmd || kind == ManifestDeviceKind::Usb || kind
        == ManifestDeviceKind::Network
}

/// How many of the four storage modes the flags select.
pub open spec fn storage_modes(flags: u16) -> int {
    (if flags & DEVICE_FLAG_EPHEMERAL != 0 { 1int } else { 0 }) + (if flags
        & DEVICE_FLAG_READ_ONLY != 0 { 1int } else { 0 }) + (if flags & DEVICE_FLAG_PARTITIONED
        != 0 { 1int } else { 0 }) + (if flags & DEVICE_FLAG_WRITABLE != 0 { 1int } else { 0 })
}

/// Whether a device entry obeys every rule. A storage controller is used in
/// exactly one mode, other devices in none, and exactly the partitioned ones
/// name a disk, a partition type and a partition.
pub open spec fn device_valid(e: Seq<u8>) -> bool {
    &&& device_kind_of(u16_at(e, 4)) matches Some(kind)
    &&& u16_at(e, 2) != 0
    &&& u16_at(e, 6) & !DEVICE_FLAGS_KNOWN == 0
    &&& u32_at(e, 8) != 0
    &&& u16_at(e, 2) == AUTO_REQUESTER ==> u16_at(e, 0) == 0 && is_automatic_kind(kind)
    &&& storage_modes(u16_at(e, 6)) == (if is_storage_kind(kind) { 1int } else { 0 })
    &&& if u16_at(e, 6) & DEVICE_FLAG_PARTITIONED != 0 {
        !zeros(e, 12, 28) && !zeros(e, 28, 44) && !zeros(e, 44, 60)
    } else {
        zeros(e, 12, 60)
    }
    &&& zeros(e, 60, 64)
}

/// Whether the header describes the whole byte string.
pub open spec fn layout_valid(b: Seq<u8>) -> bool {
    let domains = u16_at(b, 14) as int;
    let channels = u16_at(b, 20) as int;
    let devices = u16_at(b, 24) as int;
    &&& b.len() == 32 + domains * 384 + channels * 32 + devices * 64
    &&& b.subrange(0, 8) == MANIFEST_MAGIC@
    &&& u16_at(b, 8) == MANIFEST_VERSION
    &&& u16_at(b, 10) == MANIFEST_HEADER_SIZE
    &&& u16_at(b, 12) == DOMAIN_ENTRY_SIZE
    &&& 1 <= domains <= MAX_DOMAIN_COUNT
    &&& u32_at(b, 16) == b.len()
    &&& channels <= MAX_EVENT_CHANNEL_COUNT
    &&& u16_at(b, 22) == EVENT_CHANNEL_ENTRY_SIZE
    &&& devices <= MAX_DEVICE_COUNT
    &&& u16_at(b, 26) == DEVICE_ENTRY_SIZE
    &&& zeros(b, 28, 32)
}

/// The first `n` Domain entries are valid and no two share an identifier.
pub open spec fn domains_valid(b: Seq<u8>, n: int) -> bool {
    &&& forall|i: int| 0 <= i < n ==> domain_valid(#[trigger] domain_entry(b, i))
    &&& forall|i: int, j: int|
        0 <= j < i < n ==> u32_at(#[trigger] domain_entry(b, i), 0) != u32_at(
            #[trigger] domain_entry(b, j),
            0,
        )
}

pub open spec fn domain_exists(b: Seq<u8>, domains: int, id: u32) -> bool {
    exists|i: int| 0 <= i < domains && u32_at(#[trigger] domain_entry(b, i), 0) == id
}

/// Whether `(domain, port)` is one of the two ends of the channel.
pub open spec fn is_endpoint(domain: u32, port: u32, c: ManifestEventChannel) -> bool {
    (c.domain_a == domain && c.port_a == port) || (c.domain_b == domain && c.port_b == port)
}

pub open spec fn channels_share_endpoint(c: ManifestEventChannel, d: ManifestEventChannel) -> bool {
    is_endpoint(c.domain_a, c.port_a, d) || is_endpoint(c.domain_b, c.port_b, d)
}

/// The first `n` channels are valid, join known Domains and share no endpoint.
pub open spec fn channels_valid(b: Seq<u8>, domains: int, n: int) -> bool {
    &&& forall|i: int|
        0 <= i < n ==> {
            let e = #[trigger] channel_entry(b, domains, i);
            &&& channel_valid(e)
            &&& domain_exists(b, domains, channel_of(e).domain_a)
            &&& domain_exists(b, domains, channel_of(e).domain_b)
        }
    &&& forall|i: int, j: int|
        0 <= j < i < n ==> !channels_share_endpoint(
            channel_of(#[trigger] channel_entry(b, domains, i)),
            channel_of(#[trigger] channel_entry(b, domains, j)),
        )
}

/// A hardware Domain that may claim devices.
pub open spec fn is_device_owner(e: Seq<u8>) -> bool {
    u16_at(e, 4) == 2 && u64_at(e, 32) & DOMAIN_CAPABILITY_DEVICE_CLAIM != 0
}

pub open spec fn device_owner_exists(b: Seq<u8>, domains: int, id: u32) -> bool {
    exists|i: int|
        0 <= i < domains && u32_at(#[trigger] domain_entry(b, i), 0) == id && is_device_owner(
            domain_entry(b, i),
        )
}

/// Two policies for one requester, or two automatic ones for one kind.
pub open spec fn devices_collide(e: Seq<u8>, f: Seq<u8>) -> bool {
    &&& u16_at(e, 0) == u16_at(f, 0)
    &&& u16_at(e, 2) == u16_at(f, 2)
    &&& u16_at(e, 2) != AUTO_REQUESTER || u16_at(e, 4) == u16_at(f, 4)
}

/// The first `n` device entries are valid, owned by a hardware Domain that may
/// claim them, and do not collide.
pub open spec fn devices_valid(b: Seq<u8>, domains: int, channels: int, n: int) -> bool {
    &&& forall|i: int|
        0 <= i < n ==> {
            let e = #[trigger] device_entry(b, domains, channels, i);
            device_valid(e) && device_owner_exists(b, domains, u32_at(e, 8))
        }
    &&& forall|i: int, j: int|
        0 <= j < i < n ==> !devices_collide(
            #[trigger] device_entry(b, domains, channels, i),
            #[trigger] device_entry(b, domains, channels, j),
        )
}

/// Whether the bytes are a well-formed manifest.
pub open spec fn manifest_valid(b: Seq<u8>) -> bool {
    let domains = u16_at(b, 14) as int;
    let channels = u16_at(b, 20) as int;
    let devices = u16_at(b, 24) as int;
    &&& layout_valid(b)
    &&& domains_valid(b, domains)
    &&& channels_valid(b, domains, channels)
    &&& devices_valid(b, domains, channels, devices)
}

/// A manifest whose header has been checked.
#[derive(Clone, Copy, Debug, PartialEq, Eq)]
pub struct LaunchManifest<'a> {
    bytes: &'a [u8],
    domain_count: usize,
    event_channel_count: usize,
    device_count: usize,
}

impl<'a> View for LaunchManifest<'a> {
    type V = Seq<u8>;

    closed spec fn view(&self) -> Seq<u8> {
        self.bytes@
    }
}

impl<'a> LaunchManifest<'a> {
    /// The counts are those of a header that describes all of the bytes.
    pub closed spec fn wf(self) -> bool {
        &&& layout_valid(self.bytes@)
        &&& self.domain_count == u16_at(self.bytes@, 14)
        &&& self.event_channel_count == u16_at(self.bytes@, 20)
        &&& self.device_count == u16_at(self.bytes@, 24)
    }

    pub open spec fn domains(self) -> int {
        u16_at(self@, 14) as int
    }

    pub open spec fn channels(self) -> int {
        u16_at(self@, 20) as int
    }

    pub open spec fn devices(self) -> int {
        u16_at(self@, 24) as int
    }

    pub fn domain_count(self) -> (r: usize)
        requires
            self.wf(),
        ensures
            r == self.domains(),
    {
        self.domain_count
    }

    pub fn event_channel_count(self) -> (r: usize)
        requires
            self.wf(),
        ensures
            r == self.channels(),
    {
        self.event_channel_count
    }

    pub fn device_count(self) -> (r: usize)
        requires
            self.wf(),
        ensures
            r == self.devices(),
    {
        self.device_count
    }

    /// Reads Domain entry `index`.
    #[verifier::rlimit(60)]
    pub fn domain(self, index: usize) -> (r: Result<ManifestDomain<'a>, Error>)
        requires
            self.wf(),
        ensures
            r is Ok <==> index < self.domains() && domain_valid(domain_entry(self@, index as int)),
            r matches Ok(d) ==> d.matches_entry(domain_entry(self@, index as int)),
            r matches Err(e) ==> e == Error::InvalidManifest,
    {
        if index >= self.domain_count {
            return Err(Error::InvalidManifest);
        }
        let offset: usize = MANIFEST_HEADER_SIZE + index * DOMAIN_ENTRY_SIZE;
        let entry = vstd::slice::slice_subrange(self.bytes, offset, offset + DOMAIN_ENTRY_SIZE);
        assert(entry@ =~= domain_entry(self@, index as int));
        parse_domain(entry)
    }

    /// Reads event channel entry `index`.
    pub fn event_channel(self, index: usize) -> (r: Result<ManifestEventChannel, Error>)
        requires
            self.wf(),
        ensures
            r == (if index < self.channels() && channel_valid(
                channel_entry(self@, self.domains(), index as int),
            ) {
                Ok(channel_of(channel_entry(self@, self.domains(), index as int)))
            } else {
                Err(Error::InvalidManifest)
            }),
    {
        if index >= self.event_channel_count {
            return Err(Error::InvalidManifest);
        }
        let offset: usize = MANIFEST_HEADER_SIZE + self.domain_count * DOMAIN_ENTRY_SIZE + index
            * EVENT_CHANNEL_ENTRY_SIZE;
        let entry = vstd::slice::slice_subrange(
            self.bytes,
            offset,
            offset + EVENT_CHANNEL_ENTRY_SIZE,
        );
        let channel = ManifestEventChannel {
            domain_a: read_u32(entry, 0).unwrap(),
            port_a: read_u32(entry, 4).unwrap(),
            domain_b: read_u32(entry, 8).unwrap(),
            port_b: read_u32(entry, 12).unwrap(),
        };
        if channel.domain_a == 0 || channel.domain_b == 0 || channel.domain_a == channel.domain_b
            || channel.port_a == 0 || channel.port_b == 0 || !all_zero(entry, 16, 32) {
            return Err(Error::InvalidManifest);
        }
        Ok(channel)
    }

    /// Reads device entry `index`.
    pub fn device(self, index: usize) -> (r: Result<ManifestDevice, Error>)
        requires
            self.wf(),
        ensures
            r is Ok <==> index < self.devices() && device_valid(
                device_entry(self@, self.domains(), self.channels(), index as int),
            ),
            r matches Ok(d) ==> d.matches_entry(
                device_entry(self@, self.domains(), self.channels(), index as int),
            ),
            r matches Err(e) ==> e == Error::InvalidManifest,
    {
        if index >= self.device_count {
            return Err(Error::InvalidManifest);
        }
        let offset: usize = MANIFEST_HEADER_SIZE + self.domain_count * DOMAIN_ENTRY_SIZE
            + self.event_channel_count * EVENT_CHANNEL_ENTRY_SIZE + index * DEVICE_ENTRY_SIZE;
        let entry = vstd::slice::slice_subrange(self.bytes, offset, offset + DEVICE_ENTRY_SIZE);
        parse_device(entry)
    }

    /// Whether one of the Domain entries has the identifier.
    fn has_domain(self, id: u32) -> (r: bool)
        requires
            self.wf(),
            domains_valid(self@, self.domains()),
        ensures
            r == domain_exists(self@, self.domains(), id),
    {
        self.domain_by_id(id).is_some()
    }

    /// The Domain entry with the identifier.
    fn domain_by_id(self, id: u32) -> (r: Option<ManifestDomain<'a>>)
        requires
            self.wf(),
            domains_valid(self@, self.domains()),
        ensures
            r is Some <==> domain_exists(self@, self.domains(), id),
            r matches Some(d) ==> exists|i: int|
                0 <= i < self.domains() && u32_at(#[trigger] domain_entry(self@, i), 0) == id
                    && d.matches_entry(domain_entry(self@, i)),
    {
        let mut index: usize = 0;
        while index < self.domain_count
            invariant
                self.wf(),
                domains_valid(self@, self.domains()),
                index <= self.domain_count == self.domains(),
                forall|i: int| 0 <= i < index ==> u32_at(#[trigger] domain_entry(self@, i), 0) != id,
            decreases self.domain_count - index,
        {
            let ghost entry = domain_entry(self@, index as int);
            assert(domain_valid(entry));
            match self.domain(index) {
                Ok(domain) => {
                    if domain.id == id {
                        return Some(domain);
                    }
                },
                Err(_) => {},
            }
            index += 1;
        }
        None
    }

    /// Checks a manifest against the digest it was signed with.
    pub fn parse(bytes: &'a [u8], expected_sha256: [u8; 32]) -> (r: Result<Self, Error>)
        ensures
            parsed_as(r, bytes@, sha256_digest(bytes@), expected_sha256@),
    {
        let actual = sha256(bytes);
        Self::parse_with_digest(bytes, actual, expected_sha256)
    }

    /// Checks a manifest whose digest is `actual` against the signed digest.
    pub fn parse_with_digest(
        bytes: &'a [u8],
        actual: [u8; 32],
        expected_sha256: [u8; 32],
    ) -> (r: Result<Self, Error>)
        ensures
            parsed_as(r, bytes@, actual@, expected_sha256@),
    {
        if !same_bytes(&actual, &expected_sha256) {
            return Err(Error::ManifestDigestMismatch);
        }
        let manifest = Self::parse_layout(bytes)?;
        if manifest.check_domains() && manifest.check_channels() && manifest.check_devices() {
            Ok(manifest)
        } else {
            Err(Error::InvalidManifest)
        }
    }

    /// Checks the header and the size that it declares.
    fn parse_layout(bytes: &'a [u8]) -> (r: Result<Self, Error>)
        ensures
            r is Ok <==> layout_valid(bytes@),
            r matches Ok(m) ==> m.wf() && m@ == bytes@,
            r matches Err(e) ==> e == Error::InvalidManifest,
    {
        if bytes.len() < MANIFEST_HEADER_SIZE {
            return Err(Error::InvalidManifest);
        }
        let magic = MANIFEST_MAGIC;
        if !same_bytes(vstd::slice::slice_subrange(bytes, 0, 8), &magic) || read_u16(
            bytes,
            8,
        ).unwrap() != MANIFEST_VERSION || read_u16(bytes, 10).unwrap() as usize
            != MANIFEST_HEADER_SIZE || read_u16(bytes, 12).unwrap() as usize != DOMAIN_ENTRY_SIZE {
            return Err(Error::InvalidManifest);
        }
        let domain_count: usize = read_u16(bytes, 14).unwrap() as usize;
        let event_channel_count: usize = read_u16(bytes, 20).unwrap() as usize;
        let device_count: usize = read_u16(bytes, 24).unwrap() as usize;
        if domain_count == 0 || domain_count > MAX_DOMAIN_COUNT || event_channel_count
            > MAX_EVENT_CHANNEL_COUNT || read_u16(bytes, 22).unwrap() as usize
            != EVENT_CHANNEL_ENTRY_SIZE || device_count > MAX_DEVICE_COUNT || read_u16(
            bytes,
            26,
        ).unwrap() as usize != DEVICE_ENTRY_SIZE {
            return Err(Error::InvalidManifest);
        }
        let expected_size: usize = MANIFEST_HEADER_SIZE + domain_count * DOMAIN_ENTRY_SIZE
            + event_channel_count * EVENT_CHANNEL_ENTRY_SIZE + device_count * DEVICE_ENTRY_SIZE;
        if read_u32(bytes, 16).unwrap() as usize != expected_size || bytes.len() != expected_size
            || !all_zero(bytes, 28, MANIFEST_HEADER_SIZE) {
            return Err(Error::InvalidManifest);
        }
        Ok(LaunchManifest { bytes, domain_count, event_channel_count, device_count })
    }

    /// Checks every Domain entry.
    fn check_domains(self) -> (r: bool)
        requires
            self.wf(),
        ensures
            r == domains_valid(self@, self.domains()),
    {
        let mut index: usize = 0;
        while index < self.domain_count
            invariant
                self.wf(),
                index <= self.domain_count == self.domains(),
                domains_valid(self@, index as int),
            decreases self.domain_count - index,
        {
            let ghost entry = domain_entry(self@, index as int);
            let domain = match self.domain(index) {
                Ok(domain) => domain,
                Err(_) => return false,
            };
            let mut previous: usize = 0;
            while previous < index
                invariant
                    self.wf(),
                    previous <= index < self.domain_count == self.domains(),
                    domains_valid(self@, index as int),
                    entry == domain_entry(self@, index as int),
                    domain.id == u32_at(entry, 0),
                    forall|j: int|
                        0 <= j < previous ==> u32_at(entry, 0) != u32_at(
                            #[trigger] domain_entry(self@, j),
                            0,
                        ),
                decreases index - previous,
            {
                let ghost other = domain_entry(self@, previous as int);
                assert(domain_valid(other));
                match self.domain(previous) {
                    Ok(d) => {
                        if d.id == domain.id {
                            assert(u32_at(entry, 0) == u32_at(other, 0));
                            return false;
                        }
                    },
                    Err(_) => return false,
                }
                previous += 1;
            }
            index += 1;
        }
        true
    }

    /// Checks every channel entry.
    fn check_channels(self) -> (r: bool)
        requires
            self.wf(),
            domains_valid(self@, self.domains()),
        ensures
            r == channels_valid(self@, self.domains(), self.channels()),
    {
        let mut index: usize = 0;
        while index < self.event_channel_count
            invariant
                self.wf(),
                domains_valid(self@, self.domains()),
                index <= self.event_channel_count == self.channels(),
                channels_valid(self@, self.domains(), index as int),
            decreases self.event_channel_count - index,
        {
            let ghost entry = channel_entry(self@, self.domains(), index as int);
            let channel = match self.event_channel(index) {
                Ok(channel) => channel,
                Err(_) => return false,
            };
            if !self.has_domain(channel.domain_a) || !self.has_domain(channel.domain_b) {
                return false;
            }
            let mut previous: usize = 0;
            while previous < index
                invariant
                    self.wf(),
                    previous <= index < self.event_channel_count == self.channels(),
                    channels_valid(self@, self.domains(), index as int),
                    entry == channel_entry(self@, self.domains(), index as int),
                    channel == channel_of(entry),
                    forall|j: int|
                        0 <= j < previous ==> !channels_share_endpoint(
                            channel,
                            channel_of(#[trigger] channel_entry(self@, self.domains(), j)),
                        ),
                decreases index - previous,
            {
                let ghost other_entry = channel_entry(self@, self.domains(), previous as int);
                assert(channel_valid(other_entry));
                let other = match self.event_channel(previous) {
                    Ok(other) => other,
                    Err(_) => return false,
                };
                if endpoint_matches(channel.domain_a, channel.port_a, other) || endpoint_matches(
                    channel.domain_b,
                    channel.port_b,
                    other,
                ) {
                    assert(channels_share_endpoint(channel_of(entry), channel_of(other_entry)));
                    return false;
                }
                previous += 1;
            }
            index += 1;
        }
        true
    }

    /// Checks every device entry.
    fn check_devices(self) -> (r: bool)
        requires
            self.wf(),
            domains_valid(self@, self.domains()),
        ensures
            r == devices_valid(self@, self.domains(), self.channels(), self.devices()),
    {
        let mut index: usize = 0;
        while index < self.device_count
            invariant
                self.wf(),
                domains_valid(self@, self.domains()),
                index <= self.device_count == self.devices(),
                devices_valid(self@, self.domains(), self.channels(), index as int),
            decreases self.device_count - index,
        {
            let ghost entry = device_entry(self@, self.domains(), self.channels(), index as int);
            let device = match self.device(index) {
                Ok(device) => device,
                Err(_) => return false,
            };
            let owner = match self.domain_by_id(device.domain_id) {
                Some(owner) => owner,
                None => return false,
            };
            if owner.role != ManifestDomainRole::Hardware || owner.capabilities
                & DOMAIN_CAPABILITY_DEVICE_CLAIM == 0 {
                return false;
            }
            let mut previous: usize = 0;
            while previous < index
                invariant
                    self.wf(),
                    previous <= index < self.device_count == self.devices(),
                    devices_valid(self@, self.domains(), self.channels(), index as int),
                    entry == device_entry(self@, self.domains(), self.channels(), index as int),
                    device.matches_entry(entry),
                    device_valid(entry),
                    forall|j: int|
                        0 <= j < previous ==> !devices_collide(
                            entry,
                            #[trigger] device_entry(self@, self.domains(), self.channels(), j),
                        ),
                decreases index - previous,
            {
                let ghost other_entry = device_entry(
                    self@,
                    self.domains(),
                    self.channels(),
                    previous as int,
                );
                assert(device_valid(other_entry));
                let other = match self.device(previous) {
                    Ok(other) => other,
                    Err(_) => return false,
                };
                if other.segment == device.segment && other.requester == device.requester && (
                device.requester != AUTO_REQUESTER || other.kind == device.kind) {
                    assert(devices_collide(entry, other_entry));
                    return false;
                }
                previous += 1;
            }
            index += 1;
        }
        true
    }
}

/// What comes of parsing bytes with digest `actual` where `expected` was signed.
pub open spec fn parsed_as(
    r: Result<LaunchManifest, Error>,
    bytes: Seq<u8>,
    actual: Seq<u8>,
    expected: Seq<u8>,
) -> bool {
    match r {
        Ok(m) => actual == expected && manifest_valid(bytes) && m.wf() && m@ == bytes,
        Err(e) => if actual != expected {
            e == Error::ManifestDigestMismatch
        } else {
            !manifest_valid(bytes) && e == Error::InvalidManifest
        },
    }
}

/// Every entry of an accepted manifest can be read: `domain`, `event_channel` and
/// `device` succeed at each index below the counts.
pub proof fn law_accepted_manifest_is_readable(m: LaunchManifest, index: int)
    requires
        m.wf(),
        manifest_valid(m@),
        0 <= index,
    ensures
        index < m.domains() ==> domain_valid(domain_entry(m@, index)),
        index < m.channels() ==> channel_valid(channel_entry(m@, m.domains(), index)),
        index < m.devices() ==> device_valid(
            device_entry(m@, m.domains(), m.channels(), index),
        ),
        1 <= m.domains() <= MAX_DOMAIN_COUNT,
{
}

/// What parsing promises. It fails for the digest exactly where the digest is not the
/// signed one. An accepted manifest is as long as its counts say, and every entry of it
/// can be read. No two Domains share an identifier, no two channels an endpoint, and no
/// two policies a requester that they name; every policy belongs to a hardware Domain
/// that may claim devices.
pub proof fn law_parse_keeps_its_promises(
    r: Result<LaunchManifest, Error>,
    bytes: Seq<u8>,
    actual: Seq<u8>,
    expected: Seq<u8>,
)
    requires
        parsed_as(r, bytes, actual, expected),
    ensures
        r matches Err(e) && e == Error::ManifestDigestMismatch <==> actual != expected,
        r matches Ok(m) ==> {
            let (domains, channels, devices) = (m.domains(), m.channels(), m.devices());
            &&& m@ == bytes
            &&& bytes.len() == 32 + 384 * domains + 32 * channels + 64 * devices
            &&& 1 <= domains <= MAX_DOMAIN_COUNT
            &&& forall|i: int| 0 <= i < domains ==> domain_valid(#[trigger] domain_entry(m@, i))
            &&& forall|i: int|
                0 <= i < channels ==> channel_valid(#[trigger] channel_entry(m@, domains, i))
            &&& forall|i: int|
                0 <= i < devices ==> device_valid(
                    #[trigger] device_entry(m@, domains, channels, i),
                )
            &&& forall|i: int, j: int, a: ManifestDomain, b: ManifestDomain|
                0 <= i < j < domains && #[trigger] a.matches_entry(domain_entry(m@, i))
                    && #[trigger] b.matches_entry(domain_entry(m@, j)) ==> a.id != b.id
            &&& forall|i: int, j: int|
                0 <= i < j < channels ==> !channels_share_endpoint(
                    channel_of(#[trigger] channel_entry(m@, domains, i)),
                    channel_of(#[trigger] channel_entry(m@, domains, j)),
                )
            &&& forall|i: int, a: ManifestDevice|
                0 <= i < devices && #[trigger] a.matches_entry(
                    device_entry(m@, domains, channels, i),
                ) ==> device_owner_exists(m@, domains, a.domain_id)
            &&& forall|i: int, j: int, a: ManifestDevice, b: ManifestDevice|
                0 <= i < j < devices && #[trigger] a.matches_entry(
                    device_entry(m@, domains, channels, i),
                ) && #[trigger] b.matches_entry(device_entry(m@, domains, channels, j))
                    && a.requester != AUTO_REQUESTER ==> a.segment != b.segment || a.requester
                    != b.requester
        },
{
    if let Ok(m) = r {
        let (domains, channels, devices) = (m.domains(), m.channels(), m.devices());
        assert forall|i: int, j: int| 0 <= i < j < channels implies !channels_share_endpoint(
            channel_of(#[trigger] channel_entry(m@, domains, i)),
            channel_of(#[trigger] channel_entry(m@, domains, j)),
        ) by {
            assert(!channels_share_endpoint(
                channel_of(channel_entry(m@, domains, j)),
                channel_of(channel_entry(m@, domains, i)),
            ));
        }
        assert forall|i: int, j: int, a: ManifestDevice, b: ManifestDevice|
            0 <= i < j < devices && #[trigger] a.matches_entry(
                device_entry(m@, domains, channels, i),
            ) && #[trigger] b.matches_entry(device_entry(m@, domains, channels, j)) && a.requester
                != AUTO_REQUESTER implies a.segment != b.segment || a.requester != b.requester by {
            assert(!devices_collide(
                device_entry(m@, domains, channels, j),
                device_entry(m@, domains, channels, i),
            ));
        }
    }
}

/// A channel of an accepted manifest joins ports of two different Domains of the
/// manifest, and no other channel ends at either port.
pub proof fn law_channels_join_known_domains(m: LaunchManifest, index: int)
    requires
        m.wf(),
        manifest_valid(m@),
        0 <= index < m.channels(),
    ensures
        ({
            let c = channel_of(channel_entry(m@, m.domains(), index));
            &&& channel_valid(channel_entry(m@, m.domains(), index))
            &&& c.domain_a != 0 && c.domain_b != 0 && c.domain_a != c.domain_b
            &&& c.port_a != 0 && c.port_b != 0
            &&& domain_exists(m@, m.domains(), c.domain_a)
            &&& domain_exists(m@, m.domains(), c.domain_b)
            &&& forall|other: int|
                0 <= other < m.channels() && other != index ==> {
                    let d = channel_of(#[trigger] channel_entry(m@, m.domains(), other));
                    !is_endpoint(c.domain_a, c.port_a, d) && !is_endpoint(c.domain_b, c.port_b, d)
                }
        }),
{
    let e = channel_entry(m@, m.domains(), index);
    let c = channel_of(e);
    assert(channel_valid(e));
    assert forall|other: int| 0 <= other < m.channels() && other != index implies {
        let d = channel_of(#[trigger] channel_entry(m@, m.domains(), other));
        !is_endpoint(c.domain_a, c.port_a, d) && !is_endpoint(c.domain_b, c.port_b, d)
    } by {
        let d = channel_of(channel_entry(m@, m.domains(), other));
        if index < other {
            assert(!channels_share_endpoint(d, c));
        } else {
            assert(!channels_share_endpoint(c, d));
        }
    }
}

/// Every device policy of an accepted manifest belongs to a hardware Domain of the
/// manifest that may claim devices.
pub proof fn law_devices_belong_to_claiming_domains(
    m: LaunchManifest,
    index: int,
    device: ManifestDevice,
) -> (owner: int)
    requires
        manifest_valid(m@),
        0 <= index < m.devices(),
        device.matches_entry(device_entry(m@, m.domains(), m.channels(), index)),
    ensures
        0 <= owner < m.domains(),
        forall|domain: ManifestDomain|
            #[trigger] domain.matches_entry(domain_entry(m@, owner)) ==> domain.id
                == device.domain_id && domain.role == ManifestDomainRole::Hardware
                && domain.capabilities & DOMAIN_CAPABILITY_DEVICE_CLAIM != 0,
{
    let e = device_entry(m@, m.domains(), m.channels(), index);
    assert(device_owner_exists(m@, m.domains(), u32_at(e, 8)));
    choose|i: int|
        0 <= i < m.domains() && u32_at(#[trigger] domain_entry(m@, i), 0) == u32_at(e, 8)
            && is_device_owner(domain_entry(m@, i))
}

/// Two event channels of an accepted manifest never meet at one port of a Domain, so
/// an event names one receiver.
pub proof fn law_ports_join_one_channel(m: LaunchManifest, i: int, j: int, domain: u32, port: u32)
    requires
        manifest_valid(m@),
        0 <= i < m.channels(),
        0 <= j < m.channels(),
        is_endpoint(domain, port, channel_of(channel_entry(m@, m.domains(), i))),
        is_endpoint(domain, port, channel_of(channel_entry(m@, m.domains(), j))),
    ensures
        i == j,
{
    let a = channel_entry(m@, m.domains(), i);
    let b = channel_entry(m@, m.domains(), j);
    assert(i < j ==> !channels_share_endpoint(channel_of(b), channel_of(a)));
    assert(j < i ==> !channels_share_endpoint(channel_of(a), channel_of(b)));
}

/// Whether `(domain, port)` is one of the two ends of the channel.
fn endpoint_matches(domain: u32, port: u32, channel: ManifestEventChannel) -> (r: bool)
    ensures
        r == is_endpoint(domain, port, channel),
{
    (channel.domain_a == domain && channel.port_a == port) || (channel.domain_b == domain
        && channel.port_b == port)
}

/// Reads one device entry.
#[verifier::rlimit(40)]
fn parse_device(entry: &[u8]) -> (r: Result<ManifestDevice, Error>)
    requires
        entry@.len() == 64,
    ensures
        r is Ok <==> device_valid(entry@),
        r matches Ok(d) ==> d.matches_entry(entry@),
        r matches Err(e) ==> e == Error::InvalidManifest,
{
    let kind = match read_u16(entry, 4).unwrap() {
        0 => ManifestDeviceKind::Other,
        1 => ManifestDeviceKind::Display,
        2 => ManifestDeviceKind::Block,
        3 => ManifestDeviceKind::Network,
        4 => ManifestDeviceKind::Usb,
        5 => ManifestDeviceKind::Audio,
        6 => ManifestDeviceKind::Nvme,
        7 => ManifestDeviceKind::Vmd,
        _ => return Err(Error::InvalidManifest),
    };
    let device = ManifestDevice {
        segment: read_u16(entry, 0).unwrap(),
        requester: read_u16(entry, 2).unwrap(),
        kind,
        flags: read_u16(entry, 6).unwrap(),
        domain_id: read_u32(entry, 8).unwrap(),
        storage_disk_guid: copy_16(entry, 12),
        storage_partition_type_guid: copy_16(entry, 28),
        storage_partition_guid: copy_16(entry, 44),
    };
    let block_device = matches!(
        kind,
        ManifestDeviceKind::Block | ManifestDeviceKind::Nvme | ManifestDeviceKind::Vmd
    );
    let automatic_kind = matches!(
        kind,
        ManifestDeviceKind::Display
            | ManifestDeviceKind::Nvme
            | ManifestDeviceKind::Vmd
            | ManifestDeviceKind::Usb
            | ManifestDeviceKind::Network
    );
    let mut modes: usize = 0;
    if device.is_ephemeral() {
        modes += 1;
    }
    if device.is_read_only() {
        modes += 1;
    }
    if device.is_partitioned() {
        modes += 1;
    }
    if device.is_writable() {
        modes += 1;
    }
    let disk_zero = all_zero(entry, 12, 28);
    let type_zero = all_zero(entry, 28, 44);
    let partition_zero = all_zero(entry, 44, 60);
    assert(zeros(entry@, 12, 60) <==> zeros(entry@, 12, 28) && zeros(entry@, 28, 44) && zeros(
        entry@,
        44,
        60,
    ));
    if device.requester == 0 || device.flags & !DEVICE_FLAGS_KNOWN != 0 || device.domain_id == 0 || (
    device.requester == AUTO_REQUESTER && (device.segment != 0 || !automatic_kind)) || (block_device
        && modes != 1) || (!block_device && modes != 0) || (device.is_partitioned() && (disk_zero
        || type_zero || partition_zero)) || (!device.is_partitioned() && (!disk_zero || !type_zero
        || !partition_zero)) || !all_zero(entry, 60, 64) {
        return Err(Error::InvalidManifest);
    }
    Ok(device)
}

/// Reads one Domain entry.
#[verifier::rlimit(60)]
fn parse_domain<'a>(entry: &'a [u8]) -> (r: Result<ManifestDomain<'a>, Error>)
    requires
        entry@.len() == 384,
    ensures
        r is Ok <==> domain_valid(entry@),
        r matches Ok(d) ==> d.matches_entry(entry@),
        r matches Err(e) ==> e == Error::InvalidManifest,
{
    let id: u32 = read_u32(entry, 0).unwrap();
    let role = match read_u16(entry, 4).unwrap() {
        1 => ManifestDomainRole::System,
        2 => ManifestDomainRole::Hardware,
        3 => ManifestDomainRole::Application,
        _ => return Err(Error::InvalidManifest),
    };
    let flags: u16 = read_u16(entry, 6).unwrap();
    let memory_size: u64 = read_u64(entry, 8).unwrap();
    let vcpu_count: u16 = read_u16(entry, 16).unwrap();
    let restart_policy = match entry[18] {
        0 => ManifestRestartPolicy::Never,
        1 => ManifestRestartPolicy::OnFailure,
        2 => ManifestRestartPolicy::Always,
        _ => return Err(Error::InvalidManifest),
    };
    let max_restarts: u8 = entry[19];
    let image_format = match entry[20] {
        0 => ManifestImageFormat::NativeElf,
        1 => ManifestImageFormat::LinuxPvh,
        _ => return Err(Error::InvalidManifest),
    };
    proof {
        lemma_page_offset(memory_size);
    }
    if id == 0 || flags & !DOMAIN_FLAGS_KNOWN != 0 || memory_size == 0 || memory_size & 0xfff != 0
        || vcpu_count == 0 || (restart_policy == ManifestRestartPolicy::Never && max_restarts != 0)
        || (restart_policy != ManifestRestartPolicy::Never && max_restarts == 0) || !all_zero(
        entry,
        21,
        32,
    ) || !all_zero(entry, 78, 80) {
        return Err(Error::InvalidManifest);
    }
    let capabilities: u64 = read_u64(entry, 32).unwrap();
    if capabilities & !DOMAIN_CAPABILITIES_KNOWN != 0 || (role != ManifestDomainRole::Hardware
        && capabilities != 0) {
        return Err(Error::InvalidManifest);
    }
    let image_sha256 = copy_32(entry, 40);
    let path_len: usize = read_u16(entry, 72).unwrap() as usize;
    let initramfs_path_len: usize = read_u16(entry, 74).unwrap() as usize;
    let command_line_len: usize = read_u16(entry, 76).unwrap() as usize;
    let initramfs_sha256 = copy_32(entry, 80);
    if path_len == 0 || path_len > 80 || initramfs_path_len > 80 || command_line_len > 96
        || !all_zero(entry, 112 + path_len, 192) || !all_zero(entry, 192 + initramfs_path_len, 272)
        || !all_zero(entry, 272 + command_line_len, 384) {
        return Err(Error::InvalidManifest);
    }
    let path_slice = vstd::slice::slice_subrange(entry, 112, 112 + path_len);
    let initramfs_slice = vstd::slice::slice_subrange(entry, 192, 192 + initramfs_path_len);
    let command_slice = vstd::slice::slice_subrange(entry, 272, 272 + command_line_len);
    let image_path = match utf8_str(path_slice) {
        Some(path) => path,
        None => return Err(Error::InvalidManifest),
    };
    let initramfs_path = if initramfs_path_len == 0 {
        None
    } else {
        match utf8_str(initramfs_slice) {
            Some(path) => Some(path),
            None => return Err(Error::InvalidManifest),
        }
    };
    let command_line = match utf8_str(command_slice) {
        Some(line) => line,
        None => return Err(Error::InvalidManifest),
    };
    proof {
        encode_utf8_decode_utf8(image_path@);
        encode_utf8_decode_utf8(command_line@);
        if let Some(path) = initramfs_path {
            encode_utf8_decode_utf8(path@);
        }
    }
    if !valid_uefi_path(image_path) {
        return Err(Error::InvalidManifest);
    }
    let initramfs_path_valid = match initramfs_path {
        Some(path) => valid_uefi_path(path),
        None => true,
    };
    proof {
        if command_line@.len() == 0 {
            assert(command_line.spec_bytes() =~= Seq::<u8>::empty());
        } else {
            encode_utf8_first_scalar(command_line@);
        }
    }
    if !initramfs_path_valid || !command_line.is_ascii() || (image_format
        == ManifestImageFormat::NativeElf && ((role != ManifestDomainRole::System
        && initramfs_path.is_some()) || !command_line.is_empty())) || (image_format
        == ManifestImageFormat::LinuxPvh && role != ManifestDomainRole::Hardware) || (
    initramfs_path.is_none() && !all_zero(entry, 80, 112)) {
        return Err(Error::InvalidManifest);
    }
    Ok(
        ManifestDomain {
            id,
            role,
            flags,
            memory_size,
            vcpu_count,
            restart_policy,
            max_restarts,
            image_format,
            capabilities,
            image_sha256,
            image_path,
            initramfs_sha256,
            initramfs_path,
            command_line,
        },
    )
}

/// Whether the string is an absolute UEFI path.
fn valid_uefi_path(path: &str) -> (r: bool)
    ensures
        r == is_uefi_path(path@),
{
    if path.as_bytes().len() <= 1 {
        return false;
    }
    let count: usize = path.unicode_len();
    if count == 0 || path.get_char(0) != '\\' {
        return false;
    }
    let mut i: usize = 0;
    while i < count
        invariant
            i <= count == path@.len(),
            forall|j: int|
                0 <= j < i ==> #[trigger] path@[j] != '/' && !is_control_char(path@[j]),
            forall|j: int| 0 <= j < i ==> !#[trigger] parent_component_at(path@, j),
        decreases count - i,
    {
        let c = path.get_char(i);
        let code: u32 = c as u32;
        if c == '/' || code <= 0x1f || (code >= 0x7f && code <= 0x9f) {
            return false;
        }
        if c == '.' && count - i >= 2 && path.get_char(i + 1) == '.' && (i == 0 || path.get_char(
            i - 1,
        ) == '\\') && (count - i == 2 || path.get_char(i + 2) == '\\') {
            assert(parent_component_at(path@, i as int));
            return false;
        }
        i += 1;
    }
    true
}

/// What the flags and the capabilities say bit by bit, as numbers.
proof fn lemma_flag_bits(f: u16, c: u64)
    ensures
        (f & !3 == 0) == (f < 4),
        (f & !31 == 0) == (f < 32),
        (f & 1 != 0) == (f % 2 == 1),
        (f & 2 != 0) == (f / 2 % 2 == 1),
        (f & 4 != 0) == (f / 4 % 2 == 1),
        (f & 8 != 0) == (f / 8 % 2 == 1),
        (f & 16 != 0) == (f / 16 % 2 == 1),
        (c & !3 == 0) == (c < 4),
        (c & 2 != 0) == (c / 2 % 2 == 1),
{
    assert((f & !3 == 0) == (f < 4) && (f & !31 == 0) == (f < 32) && (f & 1 != 0) == (f % 2 == 1)
        && (f & 2 != 0) == (f / 2 % 2 == 1) && (f & 4 != 0) == (f / 4 % 2 == 1) && (f & 8 != 0)
        == (f / 8 % 2 == 1) && (f & 16 != 0) == (f / 16 % 2 == 1) && (c & !3 == 0) == (c < 4) && (c
        & 2 != 0) == (c / 2 % 2 == 1)) by (bit_vector);
}

/// Every field of a Domain stands at its place in the entry, lowest byte first, and the
/// numbers of the roles, policies and formats are fixed.
pub proof fn law_domain_entry_is_laid_out(d: ManifestDomain, e: Seq<u8>, i: int)
    requires
        e.len() == 384,
        d.matches_entry(e),
        u16_at(e, 72) <= 80,
        u16_at(e, 74) <= 80,
        u16_at(e, 76) <= 96,
    ensures
        d.id == e[0] + 0x100 * e[1] + 0x1_0000 * e[2] + 0x100_0000 * e[3],
        e[4] + 0x100 * e[5] == (match d.role {
            ManifestDomainRole::System => 1int,
            ManifestDomainRole::Hardware => 2,
            ManifestDomainRole::Application => 3,
        }),
        d.flags == e[6] + 0x100 * e[7],
        d.memory_size == e[8] + 0x100 * e[9] + 0x1_0000 * e[10] + 0x100_0000 * e[11]
            + 0x1_0000_0000 * (e[12] + 0x100 * e[13] + 0x1_0000 * e[14] + 0x100_0000 * e[15]),
        d.vcpu_count == e[16] + 0x100 * e[17],
        e[18] == (match d.restart_policy {
            ManifestRestartPolicy::Never => 0int,
            ManifestRestartPolicy::OnFailure => 1,
            ManifestRestartPolicy::Always => 2,
        }),
        d.max_restarts == e[19],
        e[20] == (match d.image_format {
            ManifestImageFormat::NativeElf => 0int,
            ManifestImageFormat::LinuxPvh => 1,
        }),
        d.capabilities == e[32] + 0x100 * e[33] + 0x1_0000 * e[34] + 0x100_0000 * e[35]
            + 0x1_0000_0000 * (e[36] + 0x100 * e[37] + 0x1_0000 * e[38] + 0x100_0000 * e[39]),
        0 <= i < 32 ==> d.image_sha256@[i] == e[40 + i] && d.initramfs_sha256@[i] == e[80 + i],
        d.image_path.spec_bytes().len() == e[72] + 0x100 * e[73],
        0 <= i < d.image_path.spec_bytes().len() ==> d.image_path.spec_bytes()[i] == e[112 + i],
        d.initramfs_path is None <==> e[74] == 0 && e[75] == 0,
        d.initramfs_path matches Some(p) ==> p.spec_bytes().len() == e[74] + 0x100 * e[75] && (0
            <= i < p.spec_bytes().len() ==> p.spec_bytes()[i] == e[192 + i]),
        d.command_line.spec_bytes().len() == e[76] + 0x100 * e[77],
        0 <= i < d.command_line.spec_bytes().len() ==> d.command_line.spec_bytes()[i] == e[272
            + i],
{
}

/// A Domain of an accepted entry keeps the rules: it has an identifier, a processor and
/// whole pages of memory. It names only flags and capabilities that are known, and only
/// a hardware Domain has capabilities. It restarts exactly where it says how often.
/// A Linux kernel is a hardware Domain's; a native one has no command line, and only the
/// System Domain's has an initramfs. What no field uses is zero.
pub proof fn law_accepted_domain_keeps_the_rules(d: ManifestDomain, e: Seq<u8>)
    requires
        e.len() == 384,
        d.matches_entry(e),
    ensures
        domain_fields_valid(e) <==> {
            &&& d.id > 0
            &&& d.flags < 4
            &&& d.memory_size > 0
            &&& d.memory_size % 4096 == 0
            &&& d.vcpu_count > 0
            &&& d.restart_policy == ManifestRestartPolicy::Never <==> d.max_restarts == 0
            &&& d.capabilities < 4
            &&& d.role != ManifestDomainRole::Hardware ==> d.capabilities == 0
            &&& forall|i: int| 21 <= i < 32 || i == 78 || i == 79 ==> #[trigger] e[i] == 0
        },
        domain_strings_valid(e) <==> {
            &&& 0 < d.image_path.spec_bytes().len() <= 80
            &&& u16_at(e, 72) <= 80 && u16_at(e, 74) <= 80 && u16_at(e, 76) <= 96
            &&& is_path_bytes(d.image_path.spec_bytes())
            &&& d.initramfs_path matches Some(p) ==> is_path_bytes(p.spec_bytes())
            &&& d.initramfs_path is None ==> forall|i: int| 0 <= i < 32 ==> #[trigger]
                d.initramfs_sha256@[i] == 0
            &&& valid_utf8(d.command_line.spec_bytes())
            &&& is_ascii_chars(decode_utf8(d.command_line.spec_bytes()))
            &&& d.image_format == ManifestImageFormat::NativeElf ==> {
                &&& d.command_line.spec_bytes().len() == 0
                &&& d.role != ManifestDomainRole::System ==> d.initramfs_path is None
            }
            &&& d.image_format == ManifestImageFormat::LinuxPvh ==> d.role
                == ManifestDomainRole::Hardware
            &&& forall|i: int|
                112 + u16_at(e, 72) <= i < 192 || 192 + u16_at(e, 74) <= i < 272 || 272 + u16_at(
                    e,
                    76,
                ) <= i < 384 ==> #[trigger] e[i] == 0
        },
{
    lemma_flag_bits(d.flags, d.capabilities);
    assert(zeros(e, 80, 112) <==> forall|i: int| 0 <= i < 32 ==> #[trigger] d.initramfs_sha256@[i]
        == 0) by {
        if forall|i: int| 0 <= i < 32 ==> #[trigger] d.initramfs_sha256@[i] == 0 {
            assert forall|i: int| 80 <= i < 112 implies #[trigger] e[i] == 0 by {
                assert(d.initramfs_sha256@[i - 80] == e[i]);
            }
        }
    }
    if u16_at(e, 72) <= 80 {
        assert(d.image_path.spec_bytes().len() == u16_at(e, 72));
    }
    if u16_at(e, 76) <= 96 {
        assert(d.command_line.spec_bytes().len() == u16_at(e, 76));
    }
}

/// A channel's four numbers stand one behind the other, and an accepted one joins two
/// Domains at ports that are not zero.
pub proof fn law_channel_entry_is_laid_out(e: Seq<u8>)
    requires
        e.len() == 32,
    ensures
        channel_of(e).domain_a == e[0] + 0x100 * e[1] + 0x1_0000 * e[2] + 0x100_0000 * e[3],
        channel_of(e).port_a == e[4] + 0x100 * e[5] + 0x1_0000 * e[6] + 0x100_0000 * e[7],
        channel_of(e).domain_b == e[8] + 0x100 * e[9] + 0x1_0000 * e[10] + 0x100_0000 * e[11],
        channel_of(e).port_b == e[12] + 0x100 * e[13] + 0x1_0000 * e[14] + 0x100_0000 * e[15],
        channel_valid(e) <==> {
            &&& channel_of(e).domain_a > 0 && channel_of(e).domain_b > 0
            &&& channel_of(e).port_a > 0 && channel_of(e).port_b > 0
            &&& channel_of(e).domain_a != channel_of(e).domain_b
            &&& forall|i: int| 16 <= i < 32 ==> #[trigger] e[i] == 0
        },
{
}

/// Every field of a device policy stands at its place in the entry, and the numbers of
/// the kinds are fixed.
pub proof fn law_device_entry_is_laid_out(d: ManifestDevice, e: Seq<u8>, i: int)
    requires
        e.len() == 64,
        d.matches_entry(e),
    ensures
        d.segment == e[0] + 0x100 * e[1],
        d.requester == e[2] + 0x100 * e[3],
        e[4] + 0x100 * e[5] == (match d.kind {
            ManifestDeviceKind::Other => 0int,
            ManifestDeviceKind::Display => 1,
            ManifestDeviceKind::Block => 2,
            ManifestDeviceKind::Network => 3,
            ManifestDeviceKind::Usb => 4,
            ManifestDeviceKind::Audio => 5,
            ManifestDeviceKind::Nvme => 6,
            ManifestDeviceKind::Vmd => 7,
        }),
        d.flags == e[6] + 0x100 * e[7],
        d.domain_id == e[8] + 0x100 * e[9] + 0x1_0000 * e[10] + 0x100_0000 * e[11],
        0 <= i < 16 ==> {
            &&& d.storage_disk_guid@[i] == e[12 + i]
            &&& d.storage_partition_type_guid@[i] == e[28 + i]
            &&& d.storage_partition_guid@[i] == e[44 + i]
        },
{
}

/// A device policy is accepted exactly where it names a requester and a Domain and only
/// known flags. A storage controller is used in exactly one of its four modes and other
/// devices in none. Exactly the partitioned mode names a disk, a type and a partition.
/// A policy that names no requester selects, in the first segment, a display, a network
/// card, a USB controller or a storage controller that is not a plain block device.
pub proof fn law_device_policy_is_accepted_by_its_rules(d: ManifestDevice, e: Seq<u8>)
    requires
        e.len() == 64,
        d.matches_entry(e),
    ensures
        device_valid(e) <==> {
            let modes = d.flags as int / 2 % 2 + d.flags as int / 4 % 2 + d.flags as int / 8 % 2
                + d.flags as int / 16 % 2;
            let storage = d.kind is Block || d.kind is Nvme || d.kind is Vmd;
            &&& d.requester > 0
            &&& d.domain_id > 0
            &&& d.flags < 32
            &&& if storage { modes == 1 } else { modes == 0 }
            &&& d.requester == 0xffff ==> d.segment == 0 && !(d.kind is Other) && !(
            d.kind is Block) && !(d.kind is Audio)
            &&& if d.flags as int / 8 % 2 == 1 {
                &&& exists|i: int| 0 <= i < 16 && #[trigger] d.storage_disk_guid@[i] != 0
                &&& exists|i: int| 0 <= i < 16 && #[trigger] d.storage_partition_type_guid@[i] != 0
                &&& exists|i: int| 0 <= i < 16 && #[trigger] d.storage_partition_guid@[i] != 0
            } else {
                &&& forall|i: int| 0 <= i < 16 ==> #[trigger] d.storage_disk_guid@[i] == 0
                &&& forall|i: int| 0 <= i < 16 ==> #[trigger] d.storage_partition_type_guid@[i] == 0
                &&& forall|i: int| 0 <= i < 16 ==> #[trigger] d.storage_partition_guid@[i] == 0
            }
            &&& e[60] == 0 && e[61] == 0 && e[62] == 0 && e[63] == 0
        },
        d.has_flag(DEVICE_FLAG_REQUIRED) <==> d.flags % 2 == 1,
        d.has_flag(DEVICE_FLAG_EPHEMERAL) <==> d.flags / 2 % 2 == 1,
        d.has_flag(DEVICE_FLAG_READ_ONLY) <==> d.flags / 4 % 2 == 1,
        d.has_flag(DEVICE_FLAG_PARTITIONED) <==> d.flags / 8 % 2 == 1,
        d.has_flag(DEVICE_FLAG_WRITABLE) <==> d.flags / 16 % 2 == 1,
{
    lemma_flag_bits(d.flags, 0);
    lemma_bytes_are_zero(e, d.storage_disk_guid@, 12);
    lemma_bytes_are_zero(e, d.storage_partition_type_guid@, 28);
    lemma_bytes_are_zero(e, d.storage_partition_guid@, 44);
    assert(zeros(e, 12, 60) <==> zeros(e, 12, 28) && zeros(e, 28, 44) && zeros(e, 44, 60));
    assert(zeros(e, 60, 64) <==> e[60] == 0 && e[61] == 0 && e[62] == 0 && e[63] == 0) by {
        if e[60] == 0 && e[61] == 0 && e[62] == 0 && e[63] == 0 {
            assert forall|i: int| 60 <= i < 64 implies #[trigger] e[i] == 0 by {
                assert(i == 60 || i == 61 || i == 62 || i == 63);
            }
        }
    }
}

proof fn lemma_bytes_are_zero(e: Seq<u8>, part: Seq<u8>, at: int)
    requires
        0 <= at,
        at + 16 <= e.len(),
        part == e.subrange(at, at + 16),
    ensures
        zeros(e, at, at + 16) <==> forall|i: int| 0 <= i < 16 ==> #[trigger] part[i] == 0,
{
    if forall|i: int| 0 <= i < 16 ==> #[trigger] part[i] == 0 {
        assert forall|i: int| at <= i < at + 16 implies #[trigger] e[i] == 0 by {
            assert(part[i - at] == e[i]);
        }
    }
    if zeros(e, at, at + 16) {
        assert forall|i: int| 0 <= i < 16 implies #[trigger] part[i] == 0 by {
            assert(e[at + i] == 0);
        }
    }
}

/// A manifest starts with its magic, its version and the sizes of its parts. It holds up
/// to eight Domains, sixty-four channels and sixty-four policies and nothing else. The
/// parts stand one behind the other, each entry at a place that its index gives.
pub proof fn law_manifest_is_laid_out(b: Seq<u8>, index: int, at: int)
    requires
        layout_valid(b),
    ensures
        ({
            let domains = b[14] + 0x100 * b[15];
            let channels = b[20] + 0x100 * b[21];
            let devices = b[24] + 0x100 * b[25];
            &&& b.len() == 32 + 384 * domains + 32 * channels + 64 * devices
            &&& b.len() == b[16] + 0x100 * b[17] + 0x1_0000 * b[18] + 0x100_0000 * b[19]
            &&& 1 <= domains <= 8 && channels <= 64 && devices <= 64
            &&& b[0] == 0x4d && b[1] == 0x42 && b[2] == 0x4c && b[3] == 0x48
            &&& b[4] == 0x56 && b[5] == 0x31 && b[6] == 0 && b[7] == 0
            &&& b[8] == 6 && b[9] == 0
            &&& b[10] == 32 && b[11] == 0
            &&& b[12] == 128 && b[13] == 1
            &&& b[22] == 32 && b[23] == 0
            &&& b[26] == 64 && b[27] == 0
            &&& b[28] == 0 && b[29] == 0 && b[30] == 0 && b[31] == 0
            &&& 0 <= index < domains && 0 <= at < 384 ==> domain_entry(b, index)[at] == b[32 + 384
                * index + at]
            &&& 0 <= index < channels && 0 <= at < 32 ==> channel_entry(b, domains, index)[at]
                == b[32 + 384 * domains + 32 * index + at]
            &&& 0 <= index < devices && 0 <= at < 64 ==> device_entry(
                b,
                domains,
                channels,
                index,
            )[at] == b[32 + 384 * domains + 32 * channels + 64 * index + at]
        }),
{
    let magic = b.subrange(0, 8);
    assert(forall|i: int| 0 <= i < 8 ==> #[trigger] magic[i] == b[i]);
    assert(magic[0] == b[0] && magic[1] == b[1] && magic[2] == b[2] && magic[3] == b[3] && magic[4]
        == b[4] && magic[5] == b[5] && magic[6] == b[6] && magic[7] == b[7]);
}

/// A Domain owns devices exactly where it is a hardware Domain that may claim them.
pub proof fn law_device_owner_may_claim(d: ManifestDomain, e: Seq<u8>)
    requires
        e.len() == 384,
        d.matches_entry(e),
    ensures
        is_device_owner(e) <==> d.role == ManifestDomainRole::Hardware && d.capabilities / 2 % 2
            == 1,
{
    lemma_flag_bits(0, d.capabilities);
}

/// Two policies collide exactly where they are for one requester of one segment, or
/// where both select the devices of one kind.
pub proof fn law_policies_collide_for_one_device(
    d: ManifestDevice,
    e: Seq<u8>,
    other: ManifestDevice,
    f: Seq<u8>,
)
    requires
        e.len() == 64,
        f.len() == 64,
        d.matches_entry(e),
        other.matches_entry(f),
    ensures
        devices_collide(e, f) <==> d.segment == other.segment && d.requester == other.requester && (
        d.requester == 0xffff ==> d.kind == other.kind),
{
}

/// An asset is accepted exactly where its digest is the one that was signed.
pub proof fn law_asset_is_accepted_by_its_digest(actual: Seq<u8>, expected: Seq<u8>)
    ensures
        digest_verdict(actual, expected) is Ok <==> actual == expected,
        digest_verdict(actual, expected) matches Err(e) ==> e == Error::ImageDigestMismatch,
{
}

} // verus!
