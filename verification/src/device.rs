//! Which Domain may own which PCI function, and which one does.

use vstd::prelude::*;

use crate::abi::{
    PciDeviceInfo, PCI_DEVICE_FLAG_CLAIMABLE, PCI_DEVICE_FLAG_EPHEMERAL,
    PCI_DEVICE_FLAG_PARTITIONED, PCI_DEVICE_FLAG_READ_ONLY, PCI_DEVICE_STATE_ACTIVE,
    PCI_DEVICE_STATE_CLAIMED_DISABLED, PCI_DEVICE_STATE_FIRMWARE_DEFERRED,
    PCI_DEVICE_STATE_QUARANTINED,
};
use crate::manifest::{
    is_automatic_kind, ManifestDevice, ManifestDeviceKind, AUTO_REQUESTER, DEVICE_FLAG_EPHEMERAL,
    DEVICE_FLAG_PARTITIONED, DEVICE_FLAG_READ_ONLY, DEVICE_FLAG_REQUIRED,
};
use crate::pci::PciFunction;

verus! {

pub const MAX_DEVICES: usize = 256;

/// A function, and the only Domain that may claim it (zero for none).
#[derive(Clone, Copy, Debug, PartialEq, Eq)]
pub struct DeviceRecord {
    pub info: PciDeviceInfo,
    pub allowed_domain: u32,
}

#[derive(Clone, Copy, Debug, PartialEq, Eq)]
pub enum DeviceError {
    InvalidPolicy,
    DeviceUnavailable,
    AmbiguousDevice(PciFunction, PciFunction),
    PermissionDenied,
    InvalidState,
}

/// The functions of the machine, in the order of discovery.
pub struct DeviceTable {
    devices: Vec<DeviceRecord>,
}

impl View for DeviceTable {
    type V = Seq<DeviceRecord>;

    closed spec fn view(&self) -> Seq<DeviceRecord> {
        self.devices@
    }
}

/// Whether a class is of the kind that a policy names.
pub open spec fn is_class_of_kind(class: u8, subclass: u8, kind: ManifestDeviceKind) -> bool {
    match kind {
        ManifestDeviceKind::Other => true,
        ManifestDeviceKind::Display => class == 0x03,
        ManifestDeviceKind::Block => class == 0x01,
        ManifestDeviceKind::Network => class == 0x02,
        ManifestDeviceKind::Usb => class == 0x0c && subclass == 0x03,
        ManifestDeviceKind::Audio => class == 0x04,
        ManifestDeviceKind::Nvme => class == 0x01 && subclass == 0x08,
        ManifestDeviceKind::Vmd => class == 0x01 && subclass == 0x04,
    }
}

/// Whether a function of this class is of the kind that a policy names.
pub open spec fn is_kind(info: PciDeviceInfo, kind: ManifestDeviceKind) -> bool {
    is_class_of_kind(info.class, info.subclass, kind)
}

/// A function before any policy: isolated, or still shown by the firmware.
pub open spec fn is_fresh_record(
    record: DeviceRecord,
    function: PciFunction,
    deferred_display: Option<u16>,
) -> bool {
    &&& record.allowed_domain == 0
    &&& record.info.requester == function.requester
    &&& record.info.class == function.class
    &&& record.info.subclass == function.subclass
    &&& record.info.state == (if deferred_display == Some(function.requester) {
        PCI_DEVICE_STATE_FIRMWARE_DEFERRED
    } else {
        PCI_DEVICE_STATE_QUARANTINED
    })
    &&& record.info.owner_domain == 0
    &&& record.info.flags == 0
    &&& record.info.storage_disk_guid@ == Seq::new(16, |i: int| 0u8)
    &&& record.info.storage_partition_type_guid@ == Seq::new(16, |i: int| 0u8)
    &&& record.info.storage_partition_guid@ == Seq::new(16, |i: int| 0u8)
}

/// The table of the first 256 functions before any policy.
pub open spec fn is_fresh_table(
    records: Seq<DeviceRecord>,
    functions: Seq<PciFunction>,
    deferred_display: Option<u16>,
) -> bool {
    &&& records.len() == (if functions.len() < MAX_DEVICES { functions.len() } else { MAX_DEVICES as nat })
    &&& forall|i: int|
        0 <= i < records.len() ==> is_fresh_record(#[trigger] records[i], functions[i], deferred_display)
}

/// The flags that a policy adds to a record.
pub open spec fn with_policy_flags(flags: u32, policy: ManifestDevice) -> u32 {
    let ephemeral = if policy.has_flag(DEVICE_FLAG_EPHEMERAL) {
        flags | PCI_DEVICE_FLAG_EPHEMERAL
    } else {
        flags
    };
    let read_only = if policy.has_flag(DEVICE_FLAG_READ_ONLY) {
        ephemeral | PCI_DEVICE_FLAG_READ_ONLY
    } else {
        ephemeral
    };
    if policy.has_flag(DEVICE_FLAG_PARTITIONED) {
        read_only | PCI_DEVICE_FLAG_PARTITIONED
    } else {
        read_only
    }
}

/// The record after the policy gave it to the policy's Domain.
pub open spec fn assigned(record: DeviceRecord, policy: ManifestDevice) -> DeviceRecord {
    let partitioned = policy.has_flag(DEVICE_FLAG_PARTITIONED);
    DeviceRecord {
        info: PciDeviceInfo {
            flags: with_policy_flags(record.info.flags, policy),
            storage_disk_guid: if partitioned {
                policy.storage_disk_guid
            } else {
                record.info.storage_disk_guid
            },
            storage_partition_type_guid: if partitioned {
                policy.storage_partition_type_guid
            } else {
                record.info.storage_partition_type_guid
            },
            storage_partition_guid: if partitioned {
                policy.storage_partition_guid
            } else {
                record.info.storage_partition_guid
            },
            ..record.info
        },
        allowed_domain: policy.domain_id,
    }
}

/// A policy that takes every function of its kind.
pub open spec fn takes_every_match(policy: ManifestDevice) -> bool {
    policy.requester == AUTO_REQUESTER && is_automatic_kind(policy.kind)
}

/// The functions that such a policy takes: of a network kind, only Ethernet.
pub open spec fn taken(info: PciDeviceInfo, kind: ManifestDeviceKind) -> bool {
    is_kind(info, kind) && (kind == ManifestDeviceKind::Network ==> info.subclass == 0)
}

/// What a policy without a match gives: a required device must be there.
pub open spec fn unmatched(
    records: Seq<DeviceRecord>,
    policy: ManifestDevice,
) -> Result<Seq<DeviceRecord>, DeviceError> {
    if policy.has_flag(DEVICE_FLAG_REQUIRED) {
        Err(DeviceError::DeviceUnavailable)
    } else {
        Ok(records)
    }
}

/// A policy that takes every function of its kind: none of them may have another
/// policy, and none can be partitioned.
pub open spec fn apply_to_every_match(
    records: Seq<DeviceRecord>,
    policy: ManifestDevice,
) -> Result<Seq<DeviceRecord>, DeviceError> {
    if forall|i: int| 0 <= i < records.len() ==> !taken(#[trigger] records[i].info, policy.kind) {
        unmatched(records, policy)
    } else if policy.has_flag(DEVICE_FLAG_PARTITIONED) || exists|i: int|
        0 <= i < records.len() && taken(#[trigger] records[i].info, policy.kind)
            && records[i].allowed_domain != 0 {
        Err(DeviceError::InvalidPolicy)
    } else {
        Ok(
            records.map_values(
                |record: DeviceRecord|
                    if taken(record.info, policy.kind) {
                        assigned(record, policy)
                    } else {
                        record
                    },
            ),
        )
    }
}

/// The first index at or after `from` whose record has the kind, or the length.
pub open spec fn next_of_kind(
    records: Seq<DeviceRecord>,
    kind: ManifestDeviceKind,
    from: int,
) -> int
    decreases records.len() - from,
{
    if from >= records.len() || is_kind(records[from].info, kind) {
        from
    } else {
        next_of_kind(records, kind, from + 1)
    }
}

/// The index of the first record of the requester, or the length.
pub open spec fn index_of(records: Seq<DeviceRecord>, requester: u16, from: int) -> int
    decreases records.len() - from,
{
    if from >= records.len() || records[from].info.requester == requester {
        from
    } else {
        index_of(records, requester, from + 1)
    }
}

/// Gives the one function at `index` to the policy's Domain.
pub open spec fn apply_at(
    records: Seq<DeviceRecord>,
    policy: ManifestDevice,
    index: int,
) -> Result<Seq<DeviceRecord>, DeviceError> {
    if index >= records.len() {
        unmatched(records, policy)
    } else if records[index].allowed_domain != 0 || !is_kind(records[index].info, policy.kind) {
        Err(DeviceError::InvalidPolicy)
    } else {
        Ok(records.update(index, assigned(records[index], policy)))
    }
}

/// One policy applied to the table.
pub open spec fn apply_policy(
    records: Seq<DeviceRecord>,
    functions: Seq<PciFunction>,
    policy: ManifestDevice,
) -> Result<Seq<DeviceRecord>, DeviceError> {
    if policy.segment != 0 {
        Err(DeviceError::InvalidPolicy)
    } else if takes_every_match(policy) {
        apply_to_every_match(records, policy)
    } else if policy.requester == AUTO_REQUESTER {
        let first = next_of_kind(records, policy.kind, 0);
        let second = next_of_kind(records, policy.kind, first + 1);
        if first < records.len() && second < records.len() {
            Err(DeviceError::AmbiguousDevice(functions[first], functions[second]))
        } else {
            apply_at(records, policy, first)
        }
    } else {
        apply_at(records, policy, index_of(records, policy.requester, 0))
    }
}

/// The first `n` policies applied in order, up to the first that fails.
pub open spec fn apply_policies(
    records: Seq<DeviceRecord>,
    functions: Seq<PciFunction>,
    policies: Seq<ManifestDevice>,
    n: int,
) -> Result<Seq<DeviceRecord>, DeviceError>
    decreases n,
{
    if n <= 0 {
        Ok(records)
    } else {
        match apply_policies(records, functions, policies, n - 1) {
            Ok(done) => apply_policy(done, functions, policies[n - 1]),
            Err(e) => Err(e),
        }
    }
}

/// Once a policy fails, adding further ones changes nothing.
proof fn lemma_failure_is_final(
    records: Seq<DeviceRecord>,
    functions: Seq<PciFunction>,
    policies: Seq<ManifestDevice>,
    n: int,
    m: int,
)
    requires
        0 <= n <= m,
        apply_policies(records, functions, policies, n) is Err,
    ensures
        apply_policies(records, functions, policies, m) == apply_policies(
            records,
            functions,
            policies,
            n,
        ),
    decreases m - n,
{
    if n < m {
        lemma_failure_is_final(records, functions, policies, n, m - 1);
    }
}

/// Whether a function of this class is of the kind that a policy names.
fn kind_matches(info: &PciDeviceInfo, kind: ManifestDeviceKind) -> (r: bool)
    ensures
        r == is_kind(*info, kind),
{
    match kind {
        ManifestDeviceKind::Other => true,
        ManifestDeviceKind::Display => info.class == 0x03,
        ManifestDeviceKind::Block => info.class == 0x01,
        ManifestDeviceKind::Network => info.class == 0x02,
        ManifestDeviceKind::Usb => info.class == 0x0c && info.subclass == 0x03,
        ManifestDeviceKind::Audio => info.class == 0x04,
        ManifestDeviceKind::Nvme => info.class == 0x01 && info.subclass == 0x08,
        ManifestDeviceKind::Vmd => info.class == 0x01 && info.subclass == 0x04,
    }
}

/// The record after the policy gave it to the policy's Domain.
fn assign(record: DeviceRecord, policy: &ManifestDevice) -> (r: DeviceRecord)
    ensures
        r == assigned(record, *policy),
{
    let mut info = record.info;
    if policy.is_ephemeral() {
        info.flags = info.flags | PCI_DEVICE_FLAG_EPHEMERAL;
    }
    if policy.is_read_only() {
        info.flags = info.flags | PCI_DEVICE_FLAG_READ_ONLY;
    }
    if policy.is_partitioned() {
        info.flags = info.flags | PCI_DEVICE_FLAG_PARTITIONED;
        info.storage_disk_guid = policy.storage_disk_guid;
        info.storage_partition_type_guid = policy.storage_partition_type_guid;
        info.storage_partition_guid = policy.storage_partition_guid;
    }
    DeviceRecord { info, allowed_domain: policy.domain_id }
}

/// The first index at or after `from` whose record has the kind, or the length.
fn find_kind(records: &Vec<DeviceRecord>, kind: ManifestDeviceKind, from: usize) -> (r: usize)
    requires
        from <= records@.len(),
    ensures
        r == next_of_kind(records@, kind, from as int),
        from <= r <= records@.len(),
        r < records@.len() ==> is_kind(records@[r as int].info, kind),
        forall|j: int| from <= j < r ==> !is_kind(#[trigger] records@[j].info, kind),
{
    let mut i: usize = from;
    while i < records.len() && !kind_matches(&records[i].info, kind)
        invariant
            from <= i <= records@.len(),
            next_of_kind(records@, kind, from as int) == next_of_kind(records@, kind, i as int),
            forall|j: int| from <= j < i ==> !is_kind(#[trigger] records@[j].info, kind),
        decreases records@.len() - i,
    {
        i += 1;
    }
    i
}

/// The index of the first record of the requester, or the length.
fn find_requester(records: &Vec<DeviceRecord>, requester: u16) -> (r: usize)
    ensures
        r == index_of(records@, requester, 0),
        r <= records@.len(),
        r < records@.len() ==> records@[r as int].info.requester == requester,
        forall|j: int| 0 <= j < r ==> (#[trigger] records@[j]).info.requester != requester,
{
    let mut i: usize = 0;
    while i < records.len() && records[i].info.requester != requester
        invariant
            i <= records@.len(),
            index_of(records@, requester, 0) == index_of(records@, requester, i as int),
            forall|j: int| 0 <= j < i ==> (#[trigger] records@[j]).info.requester != requester,
        decreases records@.len() - i,
    {
        i += 1;
    }
    i
}

/// Gives every function of the policy's kind to the policy's Domain.
fn take_every_match(
    records: &mut Vec<DeviceRecord>,
    policy: &ManifestDevice,
) -> (r: Result<(), DeviceError>)
    ensures
        match r {
            Ok(_) => apply_to_every_match(old(records)@, *policy) == Ok::<_, DeviceError>(
                final(records)@,
            ),
            Err(e) => apply_to_every_match(old(records)@, *policy) == Err::<
                Seq<DeviceRecord>,
                _,
            >(e),
        },
{
    let ghost before = records@;
    let mut matched: usize = 0;
    let mut i: usize = 0;
    while i < records.len()
        invariant
            before == old(records)@,
            i <= records@.len() == before.len(),
            matched <= i,
            matched == 0 <==> forall|j: int|
                0 <= j < i ==> !taken(#[trigger] before[j].info, policy.kind),
            matched > 0 ==> !policy.has_flag(DEVICE_FLAG_PARTITIONED),
            forall|j: int|
                0 <= j < i && taken(#[trigger] before[j].info, policy.kind)
                    ==> before[j].allowed_domain == 0,
            forall|j: int|
                0 <= j < i ==> #[trigger] records@[j] == (if taken(before[j].info, policy.kind) {
                    assigned(before[j], *policy)
                } else {
                    before[j]
                }),
            forall|j: int| i <= j < before.len() ==> #[trigger] records@[j] == before[j],
        decreases records@.len() - i,
    {
        let record = records[i];
        assert(record == before[i as int]);
        if kind_matches(&record.info, policy.kind) && (policy.kind != ManifestDeviceKind::Network
            || record.info.subclass == 0) {
            assert(taken(before[i as int].info, policy.kind));
            if record.allowed_domain != 0 || policy.is_partitioned() {
                return Err(DeviceError::InvalidPolicy);
            }
            records[i] = assign(record, policy);
            matched += 1;
        }
        i += 1;
    }
    if matched == 0 && policy.is_required() {
        return Err(DeviceError::DeviceUnavailable);
    }
    proof {
        if matched == 0 {
            assert(records@ =~= before);
        } else {
            assert(records@ =~= before.map_values(
                |record: DeviceRecord|
                    if taken(record.info, policy.kind) {
                        assigned(record, *policy)
                    } else {
                        record
                    },
            ));
        }
    }
    Ok(())
}

/// Applies one policy to the table.
fn apply(
    records: &mut Vec<DeviceRecord>,
    functions: &[PciFunction],
    policy: &ManifestDevice,
) -> (r: Result<(), DeviceError>)
    requires
        old(records)@.len() <= functions@.len(),
    ensures
        final(records)@.len() == old(records)@.len() || r is Err,
        match r {
            Ok(_) => apply_policy(old(records)@, functions@, *policy) == Ok::<_, DeviceError>(
                final(records)@,
            ),
            Err(e) => apply_policy(old(records)@, functions@, *policy) == Err::<
                Seq<DeviceRecord>,
                _,
            >(e),
        },
{
    if policy.segment != 0 {
        return Err(DeviceError::InvalidPolicy);
    }
    let automatic_kind = matches!(
        policy.kind,
        ManifestDeviceKind::Display
            | ManifestDeviceKind::Nvme
            | ManifestDeviceKind::Vmd
            | ManifestDeviceKind::Usb
            | ManifestDeviceKind::Network
    );
    if policy.requester == AUTO_REQUESTER && automatic_kind {
        return take_every_match(records, policy);
    }
    let index: usize = if policy.requester == AUTO_REQUESTER {
        let first: usize = find_kind(records, policy.kind, 0);
        if first < records.len() {
            let second: usize = find_kind(records, policy.kind, first + 1);
            if second < records.len() {
                return Err(DeviceError::AmbiguousDevice(functions[first], functions[second]));
            }
        }
        first
    } else {
        find_requester(records, policy.requester)
    };
    if index >= records.len() {
        if policy.is_required() {
            return Err(DeviceError::DeviceUnavailable);
        }
        return Ok(());
    }
    let record = records[index];
    if record.allowed_domain != 0 || !kind_matches(&record.info, policy.kind) {
        return Err(DeviceError::InvalidPolicy);
    }
    records[index] = assign(record, policy);
    Ok(())
}

/// What a claim by the Domain is answered.
pub open spec fn claim_verdict(
    records: Seq<DeviceRecord>,
    domain_id: u32,
    requester: u16,
) -> Result<(), DeviceError> {
    let index = index_of(records, requester, 0);
    if index >= records.len() {
        Err(DeviceError::DeviceUnavailable)
    } else if records[index].allowed_domain != domain_id {
        Err(DeviceError::PermissionDenied)
    } else if is_unclaimed_state(records[index].info.state) && records[index].info.owner_domain
        == 0 {
        Ok(())
    } else {
        Err(DeviceError::InvalidState)
    }
}

/// Whether the firmware still shows its picture through the function.
pub open spec fn is_deferred(records: Seq<DeviceRecord>, requester: u16) -> bool {
    let index = index_of(records, requester, 0);
    index < records.len() && records[index].info.state == PCI_DEVICE_STATE_FIRMWARE_DEFERRED
}

/// What a release by the Domain is answered.
pub open spec fn release_verdict(
    records: Seq<DeviceRecord>,
    domain_id: u32,
    requester: u16,
) -> Result<(), DeviceError> {
    let index = index_of(records, requester, 0);
    if index >= records.len() {
        Err(DeviceError::DeviceUnavailable)
    } else if records[index].info.owner_domain != domain_id {
        Err(DeviceError::PermissionDenied)
    } else if records[index].info.state == PCI_DEVICE_STATE_CLAIMED_DISABLED
        || records[index].info.state == PCI_DEVICE_STATE_ACTIVE {
        Ok(())
    } else {
        Err(DeviceError::InvalidState)
    }
}

/// What an activation by the Domain is answered.
pub open spec fn activate_verdict(
    records: Seq<DeviceRecord>,
    domain_id: u32,
    requester: u16,
) -> Result<(), DeviceError> {
    let index = index_of(records, requester, 0);
    if index >= records.len() {
        Err(DeviceError::DeviceUnavailable)
    } else if records[index].info.owner_domain != domain_id {
        Err(DeviceError::PermissionDenied)
    } else if records[index].info.state == PCI_DEVICE_STATE_CLAIMED_DISABLED {
        Ok(())
    } else {
        Err(DeviceError::InvalidState)
    }
}

pub open spec fn is_unclaimed_state(state: u8) -> bool {
    state == PCI_DEVICE_STATE_QUARANTINED || state == PCI_DEVICE_STATE_FIRMWARE_DEFERRED
}

/// The record with another state and owner.
pub open spec fn owned(record: DeviceRecord, state: u8, owner: u32) -> DeviceRecord {
    DeviceRecord {
        info: PciDeviceInfo { state, owner_domain: owner, ..record.info },
        ..record
    }
}

/// The table with another state and owner for the requester.
pub open spec fn with_owner(
    records: Seq<DeviceRecord>,
    requester: u16,
    state: u8,
    owner: u32,
) -> Seq<DeviceRecord> {
    let index = index_of(records, requester, 0);
    records.update(index, owned(records[index], state, owner))
}

/// Whether the requester is the host bridge, and the Domain may claim a display.
pub open spec fn is_dependency(
    records: Seq<DeviceRecord>,
    domain_id: u32,
    requester: u16,
) -> bool {
    let index = index_of(records, requester, 0);
    &&& requester == 0
    &&& index < records.len()
    &&& records[index].info.class == 0x06
    &&& records[index].info.subclass == 0x00
    &&& exists|i: int|
        0 <= i < records.len() && (#[trigger] records[i]).allowed_domain == domain_id
            && records[i].info.class == 0x03
}

/// What the Domain sees of the record.
pub open spec fn visible_to(
    records: Seq<DeviceRecord>,
    record: DeviceRecord,
    domain_id: u32,
) -> PciDeviceInfo {
    let flags = record.info.flags;
    let claimable = if record.allowed_domain == domain_id && is_unclaimed_state(record.info.state) {
        flags | PCI_DEVICE_FLAG_CLAIMABLE
    } else {
        flags
    };
    let read_only = if is_dependency(records, domain_id, record.info.requester) {
        claimable | PCI_DEVICE_FLAG_READ_ONLY
    } else {
        claimable
    };
    PciDeviceInfo { flags: read_only, ..record.info }
}

/// The table after the Domain lost everything it owned.
pub open spec fn without_owner(records: Seq<DeviceRecord>, domain_id: u32) -> Seq<DeviceRecord> {
    records.map_values(
        |record: DeviceRecord|
            if record.info.owner_domain == domain_id {
                owned(record, PCI_DEVICE_STATE_QUARANTINED, 0)
            } else {
                record
            },
    )
}

/// How many records the Domain owns among the first `n`.
pub open spec fn owned_count(records: Seq<DeviceRecord>, domain_id: u32, n: int) -> nat
    decreases n,
{
    if n <= 0 {
        0
    } else if records[n - 1].info.owner_domain == domain_id {
        owned_count(records, domain_id, n - 1) + 1
    } else {
        owned_count(records, domain_id, n - 1)
    }
}

/// The requesters that the Domain owns among the first `n`, in table order.
pub open spec fn owned_requesters(
    records: Seq<DeviceRecord>,
    domain_id: u32,
    n: int,
) -> Seq<u16>
    decreases n,
{
    if n <= 0 {
        Seq::empty()
    } else if records[n - 1].info.owner_domain == domain_id {
        owned_requesters(records, domain_id, n - 1).push(records[n - 1].info.requester)
    } else {
        owned_requesters(records, domain_id, n - 1)
    }
}

impl DeviceTable {
    /// At most 256 functions are managed.
    pub closed spec fn wf(self) -> bool {
        self.devices@.len() <= MAX_DEVICES
    }

    /// Builds the table of the machine's functions and applies the policies.
    pub fn from_pci(
        functions: &[PciFunction],
        deferred_display: Option<u16>,
        policies: &[ManifestDevice],
    ) -> (r: Result<Self, DeviceError>)
        ensures
            exists|fresh: Seq<DeviceRecord>| #[trigger]
                is_fresh_table(fresh, functions@, deferred_display) && match r {
                    Ok(t) => t.wf() && apply_policies(
                        fresh,
                        functions@,
                        policies@,
                        policies@.len() as int,
                    ) == Ok::<_, DeviceError>(t@),
                    Err(e) => apply_policies(
                        fresh,
                        functions@,
                        policies@,
                        policies@.len() as int,
                    ) == Err::<Seq<DeviceRecord>, _>(e),
                },
    {
        let mut devices: Vec<DeviceRecord> = Vec::new();
        let mut i: usize = 0;
        while i < functions.len() && i < MAX_DEVICES
            invariant
                i <= functions@.len(),
                i <= MAX_DEVICES,
                devices@.len() == i,
                forall|j: int|
                    0 <= j < i ==> is_fresh_record(
                        #[trigger] devices@[j],
                        functions@[j],
                        deferred_display,
                    ),
            decreases functions@.len() - i,
        {
            let function = functions[i];
            let deferred = match deferred_display {
                Some(requester) => requester == function.requester,
                None => false,
            };
            let guid: [u8; 16] = [0; 16];
            assert(guid@ =~= Seq::new(16, |i: int| 0u8));
            devices.push(
                DeviceRecord {
                    info: PciDeviceInfo {
                        requester: function.requester,
                        class: function.class,
                        subclass: function.subclass,
                        state: if deferred {
                            PCI_DEVICE_STATE_FIRMWARE_DEFERRED
                        } else {
                            PCI_DEVICE_STATE_QUARANTINED
                        },
                        owner_domain: 0,
                        flags: 0,
                        storage_disk_guid: guid,
                        storage_partition_type_guid: guid,
                        storage_partition_guid: guid,
                    },
                    allowed_domain: 0,
                },
            );
            i += 1;
        }
        let ghost fresh = devices@;
        assert(is_fresh_table(fresh, functions@, deferred_display));
        let mut n: usize = 0;
        while n < policies.len()
            invariant
                n <= policies@.len(),
                devices@.len() == fresh.len() <= functions@.len(),
                fresh.len() <= MAX_DEVICES,
                is_fresh_table(fresh, functions@, deferred_display),
                apply_policies(fresh, functions@, policies@, n as int) == Ok::<_, DeviceError>(
                    devices@,
                ),
            decreases policies@.len() - n,
        {
            match apply(&mut devices, functions, &policies[n]) {
                Ok(_) => {},
                Err(e) => {
                    proof {
                        lemma_failure_is_final(
                            fresh,
                            functions@,
                            policies@,
                            n + 1,
                            policies@.len() as int,
                        );
                    }
                    return Err(e);
                },
            }
            n += 1;
        }
        Ok(DeviceTable { devices })
    }

    /// What the Domain sees of the function at `index`. Every record is handed out as it
    /// is; whether its values make sense to the receiver is not judged here.
    pub fn query(&self, domain_id: u32, index: usize) -> (r: Option<PciDeviceInfo>)
        ensures
            r == (if index < self@.len() {
                Some(visible_to(self@, self@[index as int], domain_id))
            } else {
                None
            }),
    {
        if index >= self.devices.len() {
            return None;
        }
        let record = self.devices[index];
        let mut info = record.info;
        if record.allowed_domain == domain_id && (info.state == PCI_DEVICE_STATE_QUARANTINED
            || info.state == PCI_DEVICE_STATE_FIRMWARE_DEFERRED) {
            info.flags = info.flags | PCI_DEVICE_FLAG_CLAIMABLE;
        }
        if self.is_config_dependency(domain_id, info.requester) {
            info.flags = info.flags | PCI_DEVICE_FLAG_READ_ONLY;
        }
        Some(info)
    }

    /// Allows a hardware Domain to inspect the host bridge configuration needed
    /// by its assigned display controller without assigning the bridge itself.
    pub fn can_read_config(&self, domain_id: u32, requester: u16) -> (r: bool)
        ensures
            r == {
                let index = index_of(self@, requester, 0);
                index < self@.len() && (self@[index].info.owner_domain == domain_id
                    || is_dependency(self@, domain_id, requester))
            },
    {
        let index: usize = find_requester(&self.devices, requester);
        index < self.devices.len() && (self.devices[index].info.owner_domain == domain_id
            || self.is_config_dependency(domain_id, requester))
    }

    /// Gives the function to the Domain that its policy names.
    pub fn claim(&mut self, domain_id: u32, requester: u16) -> (r: Result<(), DeviceError>)
        ensures
            r == claim_verdict(old(self)@, domain_id, requester),
            final(self)@ == (if r is Ok {
                with_owner(old(self)@, requester, PCI_DEVICE_STATE_CLAIMED_DISABLED, domain_id)
            } else {
                old(self)@
            }),
            old(self).wf() ==> final(self).wf(),
    {
        self.can_claim(domain_id, requester)?;
        let index: usize = find_requester(&self.devices, requester);
        let mut record = self.devices[index];
        record.info.state = PCI_DEVICE_STATE_CLAIMED_DISABLED;
        record.info.owner_domain = domain_id;
        self.devices[index] = record;
        Ok(())
    }

    /// Takes the function back from the Domain that owns it.
    pub fn release(&mut self, domain_id: u32, requester: u16) -> (r: Result<(), DeviceError>)
        ensures
            r == release_verdict(old(self)@, domain_id, requester),
            final(self)@ == (if r is Ok {
                with_owner(old(self)@, requester, PCI_DEVICE_STATE_QUARANTINED, 0)
            } else {
                old(self)@
            }),
            old(self).wf() ==> final(self).wf(),
    {
        self.can_release(domain_id, requester)?;
        let index: usize = find_requester(&self.devices, requester);
        let mut record = self.devices[index];
        record.info.state = PCI_DEVICE_STATE_QUARANTINED;
        record.info.owner_domain = 0;
        self.devices[index] = record;
        Ok(())
    }

    /// Lets the owner drive the function.
    pub fn activate(&mut self, domain_id: u32, requester: u16) -> (r: Result<(), DeviceError>)
        ensures
            r == activate_verdict(old(self)@, domain_id, requester),
            final(self)@ == (if r is Ok {
                with_owner(old(self)@, requester, PCI_DEVICE_STATE_ACTIVE, domain_id)
            } else {
                old(self)@
            }),
            old(self).wf() ==> final(self).wf(),
    {
        self.can_activate(domain_id, requester)?;
        let index: usize = find_requester(&self.devices, requester);
        let mut record = self.devices[index];
        record.info.state = PCI_DEVICE_STATE_ACTIVE;
        self.devices[index] = record;
        Ok(())
    }

    pub fn can_activate(&self, domain_id: u32, requester: u16) -> (r: Result<(), DeviceError>)
        ensures
            r == activate_verdict(self@, domain_id, requester),
    {
        let index: usize = find_requester(&self.devices, requester);
        if index >= self.devices.len() {
            return Err(DeviceError::DeviceUnavailable);
        }
        let record = self.devices[index];
        if record.info.owner_domain != domain_id {
            return Err(DeviceError::PermissionDenied);
        }
        if record.info.state != PCI_DEVICE_STATE_CLAIMED_DISABLED {
            return Err(DeviceError::InvalidState);
        }
        Ok(())
    }

    pub fn can_claim(&self, domain_id: u32, requester: u16) -> (r: Result<(), DeviceError>)
        ensures
            r == claim_verdict(self@, domain_id, requester),
    {
        let index: usize = find_requester(&self.devices, requester);
        if index >= self.devices.len() {
            return Err(DeviceError::DeviceUnavailable);
        }
        let record = self.devices[index];
        if record.allowed_domain != domain_id {
            return Err(DeviceError::PermissionDenied);
        }
        let unclaimed = record.info.state == PCI_DEVICE_STATE_QUARANTINED || record.info.state
            == PCI_DEVICE_STATE_FIRMWARE_DEFERRED;
        if !unclaimed || record.info.owner_domain != 0 {
            return Err(DeviceError::InvalidState);
        }
        Ok(())
    }

    pub fn is_firmware_deferred(&self, requester: u16) -> (r: bool)
        ensures
            r == is_deferred(self@, requester),
    {
        let index: usize = find_requester(&self.devices, requester);
        index < self.devices.len() && self.devices[index].info.state
            == PCI_DEVICE_STATE_FIRMWARE_DEFERRED
    }

    pub fn can_release(&self, domain_id: u32, requester: u16) -> (r: Result<(), DeviceError>)
        ensures
            r == release_verdict(self@, domain_id, requester),
    {
        let index: usize = find_requester(&self.devices, requester);
        if index >= self.devices.len() {
            return Err(DeviceError::DeviceUnavailable);
        }
        let record = self.devices[index];
        if record.info.owner_domain != domain_id {
            return Err(DeviceError::PermissionDenied);
        }
        if record.info.state != PCI_DEVICE_STATE_CLAIMED_DISABLED && record.info.state
            != PCI_DEVICE_STATE_ACTIVE {
            return Err(DeviceError::InvalidState);
        }
        Ok(())
    }

    /// The requesters that the Domain owns, in table order.
    pub fn claimed_requesters(&self, domain_id: u32) -> (r: Vec<u16>)
        ensures
            r@ == owned_requesters(self@, domain_id, self@.len() as int),
    {
        let mut claimed: Vec<u16> = Vec::new();
        let mut i: usize = 0;
        while i < self.devices.len()
            invariant
                i <= self@.len() == self.devices@.len(),
                self@ == self.devices@,
                claimed@ == owned_requesters(self@, domain_id, i as int),
            decreases self@.len() - i,
        {
            if self.devices[i].info.owner_domain == domain_id {
                claimed.push(self.devices[i].info.requester);
            }
            i += 1;
        }
        claimed
    }

    /// Takes back everything that the Domain owns, and says how much that was.
    pub fn release_domain(&mut self, domain_id: u32) -> (r: usize)
        ensures
            final(self)@ == without_owner(old(self)@, domain_id),
            r == owned_count(old(self)@, domain_id, old(self)@.len() as int),
            old(self).wf() ==> final(self).wf(),
    {
        let ghost before = self.devices@;
        let mut released: usize = 0;
        let mut i: usize = 0;
        while i < self.devices.len()
            invariant
                before == old(self).devices@,
                i <= self.devices@.len() == before.len(),
                released == owned_count(before, domain_id, i as int),
                released <= i,
                forall|j: int|
                    0 <= j < i ==> #[trigger] self.devices@[j] == (if before[j].info.owner_domain
                        == domain_id {
                        owned(before[j], PCI_DEVICE_STATE_QUARANTINED, 0)
                    } else {
                        before[j]
                    }),
                forall|j: int| i <= j < before.len() ==> #[trigger] self.devices@[j] == before[j],
            decreases before.len() - i,
        {
            let mut record = self.devices[i];
            if record.info.owner_domain == domain_id {
                record.info.state = PCI_DEVICE_STATE_QUARANTINED;
                record.info.owner_domain = 0;
                self.devices[i] = record;
                released += 1;
            }
            i += 1;
        }
        assert(self.devices@ =~= without_owner(before, domain_id));
        released
    }

    pub fn len(&self) -> (r: usize)
        ensures
            r == self@.len(),
    {
        self.devices.len()
    }

    pub fn is_empty(&self) -> (r: bool)
        ensures
            r == (self@.len() == 0),
    {
        self.devices.len() == 0
    }

    fn is_config_dependency(&self, domain_id: u32, requester: u16) -> (r: bool)
        ensures
            r == is_dependency(self@, domain_id, requester),
    {
        if requester != 0 {
            return false;
        }
        let index: usize = find_requester(&self.devices, requester);
        if index >= self.devices.len() || self.devices[index].info.class != 0x06
            || self.devices[index].info.subclass != 0x00 {
            return false;
        }
        let mut i: usize = 0;
        while i < self.devices.len()
            invariant
                i <= self.devices@.len(),
                forall|j: int|
                    0 <= j < i ==> !((#[trigger] self.devices@[j]).allowed_domain == domain_id
                        && self.devices@[j].info.class == 0x03),
                index == index_of(self@, requester, 0),
                requester == 0,
                index < self@.len(),
                self@[index as int].info.class == 0x06,
                self@[index as int].info.subclass == 0x00,
            decreases self.devices@.len() - i,
        {
            if self.devices[i].allowed_domain == domain_id && self.devices[i].info.class == 0x03 {
                return true;
            }
            i += 1;
        }
        false
    }
}

/// The index of the first record of a requester does not leave the table, and
/// the record at it is the requester's.
pub proof fn lemma_index_of(records: Seq<DeviceRecord>, requester: u16, from: int)
    requires
        0 <= from <= records.len(),
    ensures
        from <= index_of(records, requester, from) <= records.len(),
        index_of(records, requester, from) < records.len() ==> records[index_of(
            records,
            requester,
            from,
        )].info.requester == requester,
        forall|j: int|
            from <= j < index_of(records, requester, from) ==> (
            #[trigger] records[j]).info.requester != requester,
    decreases records.len() - from,
{
    if from < records.len() && records[from].info.requester != requester {
        lemma_index_of(records, requester, from + 1);
    }
}

/// A change that keeps every requester keeps every index.
proof fn lemma_same_requesters_same_index(
    a: Seq<DeviceRecord>,
    b: Seq<DeviceRecord>,
    requester: u16,
    from: int,
)
    requires
        a.len() == b.len(),
        0 <= from <= a.len(),
        forall|i: int| 0 <= i < a.len() ==> (#[trigger] a[i]).info.requester == b[i].info.requester,
    ensures
        index_of(a, requester, from) == index_of(b, requester, from),
    decreases a.len() - from,
{
    if from < a.len() {
        assert(a[from].info.requester == b[from].info.requester);
        if a[from].info.requester != requester {
            lemma_same_requesters_same_index(a, b, requester, from + 1);
        }
    }
}

/// A claimed function cannot be claimed again, by any Domain, until it is
/// released, and its owner can release it.
pub proof fn law_claim_is_exclusive(
    records: Seq<DeviceRecord>,
    domain_id: u32,
    requester: u16,
    other: u32,
)
    requires
        claim_verdict(records, domain_id, requester) is Ok,
    ensures
        ({
            let claimed = with_owner(
                records,
                requester,
                PCI_DEVICE_STATE_CLAIMED_DISABLED,
                domain_id,
            );
            &&& claim_verdict(claimed, other, requester) is Err
            &&& release_verdict(claimed, domain_id, requester) is Ok
            &&& activate_verdict(claimed, domain_id, requester) is Ok
        }),
{
    let claimed = with_owner(records, requester, PCI_DEVICE_STATE_CLAIMED_DISABLED, domain_id);
    lemma_index_of(records, requester, 0);
    lemma_same_requesters_same_index(claimed, records, requester, 0);
}

/// Releasing what was just claimed from quarantine gives the table back.
pub proof fn law_release_undoes_claim(
    records: Seq<DeviceRecord>,
    domain_id: u32,
    requester: u16,
)
    requires
        claim_verdict(records, domain_id, requester) is Ok,
        records[index_of(records, requester, 0)].info.state == PCI_DEVICE_STATE_QUARANTINED,
    ensures
        ({
            let claimed = with_owner(
                records,
                requester,
                PCI_DEVICE_STATE_CLAIMED_DISABLED,
                domain_id,
            );
            &&& release_verdict(claimed, domain_id, requester) is Ok
            &&& with_owner(claimed, requester, PCI_DEVICE_STATE_QUARANTINED, 0) == records
        }),
{
    let claimed = with_owner(records, requester, PCI_DEVICE_STATE_CLAIMED_DISABLED, domain_id);
    lemma_index_of(records, requester, 0);
    lemma_same_requesters_same_index(claimed, records, requester, 0);
    assert(with_owner(claimed, requester, PCI_DEVICE_STATE_QUARANTINED, 0) =~= records);
}

/// After a Domain's devices were released it owns none, no other Domain lost
/// one, and the policies stand.
pub proof fn law_released_domain_owns_nothing(
    records: Seq<DeviceRecord>,
    domain_id: u32,
    other: u32,
    i: int,
)
    requires
        0 <= i < records.len(),
        domain_id != 0,
        other != domain_id,
    ensures
        ({
            let after = without_owner(records, domain_id);
            &&& after.len() == records.len()
            &&& after[i].info.owner_domain != domain_id
            &&& records[i].info.owner_domain == other ==> after[i] == records[i]
            &&& after[i].allowed_domain == records[i].allowed_domain
        }),
{
}

/// A policy gives the record to its Domain: the kind fits, and the policy names
/// the requester or leaves the choice open.
pub open spec fn policy_covers(policy: ManifestDevice, record: DeviceRecord) -> bool {
    &&& policy.segment == 0
    &&& policy.domain_id == record.allowed_domain
    &&& is_kind(record.info, policy.kind)
    &&& policy.requester == AUTO_REQUESTER || policy.requester == record.info.requester
}

/// Only the signed policies let a Domain claim: a Domain that may claim some
/// function of a table is named by one of the first `n` policies for it.
pub proof fn law_claims_follow_policies(
    fresh: Seq<DeviceRecord>,
    functions: Seq<PciFunction>,
    deferred_display: Option<u16>,
    policies: Seq<ManifestDevice>,
    n: int,
    records: Seq<DeviceRecord>,
    i: int,
)
    requires
        is_fresh_table(fresh, functions, deferred_display),
        0 <= n <= policies.len(),
        apply_policies(fresh, functions, policies, n) == Ok::<_, DeviceError>(records),
        0 <= i < records.len(),
        records[i].allowed_domain != 0,
    ensures
        exists|k: int| 0 <= k < n && policy_covers(#[trigger] policies[k], records[i]),
    decreases n,
{
    if n > 0 {
        let before = apply_policies(fresh, functions, policies, n - 1)->Ok_0;
        let policy = policies[n - 1];
        lemma_index_of(before, policy.requester, 0);
        lemma_next_of_kind(before, policy.kind, 0);
        assert(before.len() == records.len());
        if before[i] == records[i] {
            law_claims_follow_policies(
                fresh,
                functions,
                deferred_display,
                policies,
                n - 1,
                before,
                i,
            );
            let k = choose|k: int| 0 <= k < n - 1 && policy_covers(#[trigger] policies[k], before[i]);
            assert(policy_covers(policies[k], records[i]));
        } else {
            assert(policy_covers(policies[n - 1], records[i]));
        }
    } else {
        assert(is_fresh_record(fresh[i], functions[i], deferred_display));
    }
}

proof fn lemma_next_of_kind(records: Seq<DeviceRecord>, kind: ManifestDeviceKind, from: int)
    requires
        0 <= from <= records.len(),
    ensures
        from <= next_of_kind(records, kind, from) <= records.len(),
        next_of_kind(records, kind, from) < records.len() ==> is_kind(
            records[next_of_kind(records, kind, from)].info,
            kind,
        ),
        forall|j: int|
            from <= j < next_of_kind(records, kind, from) ==> !is_kind(
                (#[trigger] records[j]).info,
                kind,
            ),
    decreases records.len() - from,
{
    if from < records.len() && !is_kind(records[from].info, kind) {
        lemma_next_of_kind(records, kind, from + 1);
    }
}

/// Whether a policy is about a function: it names the requester, or it names none and
/// the function is of its kind. Of a network kind it then means Ethernet alone.
pub open spec fn selects(policy: ManifestDevice, function: PciFunction) -> bool {
    if policy.requester == AUTO_REQUESTER {
        is_class_of_kind(function.class, function.subclass, policy.kind) && (policy.kind
            == ManifestDeviceKind::Network ==> function.subclass == 0)
    } else {
        policy.requester == function.requester
    }
}

/// No two functions have the same requester, and none has the one that stands for any.
pub open spec fn has_distinct_requesters(functions: Seq<PciFunction>) -> bool {
    &&& forall|i: int| 0 <= i < functions.len() ==> (#[trigger] functions[i]).requester
        != AUTO_REQUESTER
    &&& forall|i: int, j: int|
        0 <= i < j < functions.len() ==> (#[trigger] functions[i]).requester
            != (#[trigger] functions[j]).requester
}

/// The records are those of the functions, free and without an owner.
spec fn lists_free(records: Seq<DeviceRecord>, functions: Seq<PciFunction>) -> bool {
    &&& records.len() == functions.len()
    &&& forall|i: int|
        0 <= i < records.len() ==> {
            &&& (#[trigger] records[i]).info.requester == functions[i].requester
            &&& records[i].info.class == functions[i].class
            &&& records[i].info.subclass == functions[i].subclass
            &&& records[i].info.owner_domain == 0
            &&& is_unclaimed_state(records[i].info.state)
        }
}

/// A policy that can be applied gives its Domain every function that it selects, none of
/// which had been given away, and touches no other.
proof fn lemma_applied_policy(
    before: Seq<DeviceRecord>,
    functions: Seq<PciFunction>,
    policy: ManifestDevice,
    after: Seq<DeviceRecord>,
)
    requires
        lists_free(before, functions),
        has_distinct_requesters(functions),
        apply_policy(before, functions, policy) == Ok::<_, DeviceError>(after),
    ensures
        lists_free(after, functions),
        forall|i: int|
            0 <= i < after.len() ==> (if selects(policy, functions[i]) {
                before[i].allowed_domain == 0 && (#[trigger] after[i]).allowed_domain
                    == policy.domain_id
            } else {
                after[i] == before[i]
            }),
{
    if takes_every_match(policy) {
        assert forall|i: int| 0 <= i < before.len() implies selects(policy, functions[i]) == taken(
            (#[trigger] before[i]).info,
            policy.kind,
        ) by {
            assert(before[i].info.class == functions[i].class);
        }
        if forall|i: int| 0 <= i < before.len() ==> !taken(#[trigger] before[i].info, policy.kind) {
            assert(after == before);
        } else {
            assert forall|i: int| 0 <= i < after.len() implies (if selects(policy, functions[i]) {
                before[i].allowed_domain == 0 && (#[trigger] after[i]).allowed_domain
                    == policy.domain_id
            } else {
                after[i] == before[i]
            }) by {
                assert(taken(before[i].info, policy.kind) == selects(policy, functions[i]));
            }
        }
    } else if policy.requester == AUTO_REQUESTER {
        let first = next_of_kind(before, policy.kind, 0);
        lemma_next_of_kind(before, policy.kind, 0);
        if first < before.len() {
            lemma_next_of_kind(before, policy.kind, first + 1);
        }
        assert forall|i: int| 0 <= i < before.len() implies selects(policy, functions[i]) == (i
            == first) by {
            assert(before[i].info.class == functions[i].class);
            assert(is_kind(before[i].info, policy.kind) ==> i == first);
        }
    } else {
        let at = index_of(before, policy.requester, 0);
        lemma_index_of(before, policy.requester, 0);
        assert forall|i: int| 0 <= i < before.len() implies selects(policy, functions[i]) == (i
            == at) by {
            assert(before[i].info.requester == functions[i].requester);
            if at < i {
                assert(before[at].info.requester == functions[at].requester);
                assert(functions[at].requester != functions[i].requester);
            }
        }
    }
}

/// At most one of the first `n` policies selects the function.
pub open spec fn is_selected_once(
    policies: Seq<ManifestDevice>,
    function: PciFunction,
    n: int,
) -> bool {
    forall|j: int, k: int|
        0 <= j < k < n ==> !(selects(#[trigger] policies[j], function) && selects(
            #[trigger] policies[k],
            function,
        ))
}

proof fn lemma_applied_policies(
    fresh: Seq<DeviceRecord>,
    functions: Seq<PciFunction>,
    deferred_display: Option<u16>,
    policies: Seq<ManifestDevice>,
    n: int,
    records: Seq<DeviceRecord>,
    i: int,
)
    requires
        is_fresh_table(fresh, functions, deferred_display),
        functions.len() <= MAX_DEVICES,
        has_distinct_requesters(functions),
        forall|k: int| 0 <= k < n ==> (#[trigger] policies[k]).domain_id != 0,
        0 <= n <= policies.len(),
        apply_policies(fresh, functions, policies, n) == Ok::<_, DeviceError>(records),
        0 <= i < functions.len(),
    ensures
        lists_free(records, functions),
        is_selected_once(policies, functions[i], n),
        forall|k: int|
            0 <= k < n && selects(#[trigger] policies[k], functions[i]) ==> records[i].allowed_domain
                == policies[k].domain_id,
        records[i].allowed_domain != 0 ==> exists|k: int|
            0 <= k < n && selects(#[trigger] policies[k], functions[i]),
    decreases n,
{
    if n > 0 {
        let before = apply_policies(fresh, functions, policies, n - 1)->Ok_0;
        lemma_applied_policies(
            fresh,
            functions,
            deferred_display,
            policies,
            n - 1,
            before,
            i,
        );
        lemma_applied_policy(before, functions, policies[n - 1], records);
        assert(records[i].info.requester == functions[i].requester);
        if selects(policies[n - 1], functions[i]) {
            assert forall|k: int| 0 <= k < n - 1 implies !selects(
                #[trigger] policies[k],
                functions[i],
            ) by {
                assert(policies[k].domain_id != 0);
            }
        } else if records[i].allowed_domain != 0 {
            let k = choose|k: int|
                0 <= k < n - 1 && selects(#[trigger] policies[k], functions[i]);
            assert(selects(policies[k], functions[i]));
        }
    } else {
        assert(fresh.len() == functions.len());
        assert forall|j: int| 0 <= j < fresh.len() implies {
            &&& (#[trigger] fresh[j]).info.requester == functions[j].requester
            &&& fresh[j].info.class == functions[j].class
            &&& fresh[j].info.subclass == functions[j].subclass
            &&& fresh[j].info.owner_domain == 0
            &&& is_unclaimed_state(fresh[j].info.state)
        } by {
            assert(is_fresh_record(fresh[j], functions[j], deferred_display));
        }
        assert(is_fresh_record(fresh[i], functions[i], deferred_display));
    }
}

/// The policies decide who may claim what: a Domain can claim a function of a new table
/// exactly where one of its policies selects it. At most one policy selects each
/// function, and every function starts without an owner.
pub proof fn law_policies_decide_claims(
    fresh: Seq<DeviceRecord>,
    functions: Seq<PciFunction>,
    deferred_display: Option<u16>,
    policies: Seq<ManifestDevice>,
    records: Seq<DeviceRecord>,
    i: int,
    domain_id: u32,
)
    requires
        is_fresh_table(fresh, functions, deferred_display),
        functions.len() <= MAX_DEVICES,
        has_distinct_requesters(functions),
        forall|k: int| 0 <= k < policies.len() ==> (#[trigger] policies[k]).domain_id != 0,
        apply_policies(fresh, functions, policies, policies.len() as int) == Ok::<_, DeviceError>(
            records,
        ),
        0 <= i < functions.len(),
        domain_id != 0,
    ensures
        records.len() == functions.len(),
        records[i].info.requester == functions[i].requester,
        records[i].info.owner_domain == 0,
        claim_verdict(records, domain_id, functions[i].requester) is Ok <==> exists|k: int|
            0 <= k < policies.len() && (#[trigger] policies[k]).domain_id == domain_id && selects(
                policies[k],
                functions[i],
            ),
        is_selected_once(policies, functions[i], policies.len() as int),
{
    let n = policies.len() as int;
    lemma_applied_policies(fresh, functions, deferred_display, policies, n, records, i);
    let requester = functions[i].requester;
    let at = index_of(records, requester, 0);
    lemma_index_of(records, requester, 0);
    assert(records[i].info.requester == requester);
    if at != i {
        assert(records[at].info.requester == functions[at].requester);
        assert(functions[at].requester != functions[i].requester);
    }
    if records[i].allowed_domain == domain_id {
        let k = choose|k: int| 0 <= k < n && selects(#[trigger] policies[k], functions[i]);
        assert(policies[k].domain_id == domain_id);
    }
}

/// The same functions, given to the same Domains.
pub open spec fn keeps_policies(before: Seq<DeviceRecord>, after: Seq<DeviceRecord>) -> bool {
    &&& after.len() == before.len()
    &&& forall|i: int|
        0 <= i < before.len() ==> (#[trigger] after[i]).info.requester == before[i].info.requester
            && after[i].allowed_domain == before[i].allowed_domain
}

/// Nobody owns the function.
pub open spec fn is_free(records: Seq<DeviceRecord>, requester: u16) -> bool {
    let index = index_of(records, requester, 0);
    &&& index < records.len()
    &&& is_unclaimed_state(records[index].info.state)
    &&& records[index].info.owner_domain == 0
}

/// No claim, release or activation changes who may claim a function.
pub proof fn law_policies_are_kept(
    records: Seq<DeviceRecord>,
    requester: u16,
    state: u8,
    owner: u32,
    domain_id: u32,
)
    requires
        index_of(records, requester, 0) < records.len(),
    ensures
        keeps_policies(records, with_owner(records, requester, state, owner)),
        keeps_policies(records, without_owner(records, domain_id)),
{
    lemma_index_of(records, requester, 0);
}

/// Whatever has happened since the policies were applied, a Domain that could claim a
/// function then can claim it whenever it is free, and only then.
pub proof fn law_free_function_can_be_claimed(
    records: Seq<DeviceRecord>,
    later: Seq<DeviceRecord>,
    domain_id: u32,
    requester: u16,
)
    requires
        keeps_policies(records, later),
        claim_verdict(records, domain_id, requester) is Ok,
    ensures
        claim_verdict(later, domain_id, requester) is Ok <==> is_free(later, requester),
{
    lemma_index_of(records, requester, 0);
    lemma_same_requesters_same_index(later, records, requester, 0);
}

/// Which classes a policy's kind names.
pub proof fn law_kinds_are_pci_classes(class: u8, subclass: u8)
    ensures
        is_class_of_kind(class, subclass, ManifestDeviceKind::Other),
        is_class_of_kind(class, subclass, ManifestDeviceKind::Block) <==> class == 1,
        is_class_of_kind(class, subclass, ManifestDeviceKind::Network) <==> class == 2,
        is_class_of_kind(class, subclass, ManifestDeviceKind::Display) <==> class == 3,
        is_class_of_kind(class, subclass, ManifestDeviceKind::Audio) <==> class == 4,
        is_class_of_kind(class, subclass, ManifestDeviceKind::Usb) <==> class == 12 && subclass == 3,
        is_class_of_kind(class, subclass, ManifestDeviceKind::Nvme) <==> class == 1 && subclass == 8,
        is_class_of_kind(class, subclass, ManifestDeviceKind::Vmd) <==> class == 1 && subclass == 4,
{
}

/// A function is found by its requester exactly where the table has it, and then the first
/// record of it.
pub proof fn law_function_is_found_by_its_requester(records: Seq<DeviceRecord>, requester: u16)
    ensures
        0 <= index_of(records, requester, 0) <= records.len(),
        index_of(records, requester, 0) < records.len() ==> records[index_of(
            records,
            requester,
            0,
        )].info.requester == requester,
        forall|i: int|
            0 <= i < index_of(records, requester, 0) ==> (
            #[trigger] records[i]).info.requester != requester,
{
    lemma_index_is_first(records, requester, 0);
}

proof fn lemma_index_is_first(records: Seq<DeviceRecord>, requester: u16, from: int)
    requires
        0 <= from <= records.len(),
    ensures
        from <= index_of(records, requester, from) <= records.len(),
        index_of(records, requester, from) < records.len() ==> records[index_of(
            records,
            requester,
            from,
        )].info.requester == requester,
        forall|i: int|
            from <= i < index_of(records, requester, from) ==> (
            #[trigger] records[i]).info.requester != requester,
    decreases records.len() - from,
{
    if from < records.len() && records[from].info.requester != requester {
        lemma_index_is_first(records, requester, from + 1);
    }
}

/// What a Domain may do with a function: claim it where its policy names the Domain, the
/// function is quarantined (1) or still shown by the firmware (2) and nobody owns it;
/// activate it where the Domain owns it and it is disabled (3); release it where the Domain
/// owns it, disabled or active (4). A function that is not there is unavailable, one of
/// somebody else is denied.
pub proof fn law_function_goes_through_its_states(
    records: Seq<DeviceRecord>,
    domain_id: u32,
    requester: u16,
)
    ensures
        ({
            let at = index_of(records, requester, 0);
            let record = records[at];
            let unavailable = Err::<(), DeviceError>(DeviceError::DeviceUnavailable);
            let denied = Err::<(), DeviceError>(DeviceError::PermissionDenied);
            let wrong = Err::<(), DeviceError>(DeviceError::InvalidState);
            if at >= records.len() {
                &&& claim_verdict(records, domain_id, requester) == unavailable
                &&& release_verdict(records, domain_id, requester) == unavailable
                &&& activate_verdict(records, domain_id, requester) == unavailable
                &&& !is_deferred(records, requester)
            } else {
                &&& claim_verdict(records, domain_id, requester) == (if record.allowed_domain
                    != domain_id {
                    denied
                } else if record.info.owner_domain == 0 && (record.info.state == 1
                    || record.info.state == 2) {
                    Ok(())
                } else {
                    wrong
                })
                &&& release_verdict(records, domain_id, requester) == (if record.info.owner_domain
                    != domain_id {
                    denied
                } else if record.info.state == 3 || record.info.state == 4 {
                    Ok(())
                } else {
                    wrong
                })
                &&& activate_verdict(records, domain_id, requester) == (if record.info.owner_domain
                    != domain_id {
                    denied
                } else if record.info.state == 3 {
                    Ok(())
                } else {
                    wrong
                })
                &&& is_deferred(records, requester) <==> record.info.state == 2
            }
        }),
{
}

/// Giving a function to a Domain changes its state and its owner, and nothing else of the
/// table.
pub proof fn law_one_record_changes_hands(
    records: Seq<DeviceRecord>,
    requester: u16,
    state: u8,
    owner: u32,
    i: int,
)
    requires
        index_of(records, requester, 0) < records.len(),
        0 <= i < records.len(),
    ensures
        ({
            let after = with_owner(records, requester, state, owner);
            let at = index_of(records, requester, 0);
            &&& after.len() == records.len()
            &&& i != at ==> after[i] == records[i]
            &&& after[at].info.state == state && after[at].info.owner_domain == owner
            &&& after[at].info.requester == records[at].info.requester && after[at].info.class
                == records[at].info.class && after[at].info.flags == records[at].info.flags
                && after[at].allowed_domain == records[at].allowed_domain
        }),
{
    law_function_is_found_by_its_requester(records, requester);
}

/// A Domain that loses everything leaves each of its functions quarantined (1) and without
/// an owner; no other function changes.
pub proof fn law_lost_functions_are_quarantined(
    records: Seq<DeviceRecord>,
    domain_id: u32,
    i: int,
)
    requires
        0 <= i < records.len(),
    ensures
        ({
            let after = without_owner(records, domain_id);
            &&& after.len() == records.len()
            &&& records[i].info.owner_domain == domain_id ==> after[i].info.state == 1
                && after[i].info.owner_domain == 0 && after[i].allowed_domain
                == records[i].allowed_domain && after[i].info.requester == records[i].info.requester
                && after[i].info.flags == records[i].info.flags
            &&& records[i].info.owner_domain != domain_id ==> after[i] == records[i]
        }),
{
}

/// The list of what a Domain owns names each of its functions, and none of another.
pub proof fn law_owned_functions_are_listed(
    records: Seq<DeviceRecord>,
    domain_id: u32,
    n: int,
    requester: u16,
)
    requires
        0 <= n <= records.len(),
    ensures
        owned_requesters(records, domain_id, n).contains(requester) <==> exists|i: int|
            0 <= i < n && (#[trigger] records[i]).info.owner_domain == domain_id
                && records[i].info.requester == requester,
        owned_requesters(records, domain_id, n).len() == owned_count(records, domain_id, n),
    decreases n,
{
    let list = owned_requesters(records, domain_id, n);
    if n > 0 {
        law_owned_functions_are_listed(records, domain_id, n - 1, requester);
        let before = owned_requesters(records, domain_id, n - 1);
        let last = records[n - 1];
        if last.info.owner_domain == domain_id {
            assert(list[before.len() as int] == last.info.requester);
            if before.contains(requester) {
                let k = choose|k: int| 0 <= k < before.len() && before[k] == requester;
                assert(list[k] == requester);
            }
            if list.contains(requester) && last.info.requester != requester {
                let k = choose|k: int| 0 <= k < list.len() && list[k] == requester;
                assert(before[k] == requester);
            }
        }
    }
}

/// A Domain sees of a function what the table holds, with two marks of its own: bit 0 where
/// it may claim the function, and bit 2 where the function is the host bridge that a display
/// of its own depends on.
pub proof fn law_domain_sees_its_own_marks(
    records: Seq<DeviceRecord>,
    record: DeviceRecord,
    domain_id: u32,
)
    ensures
        ({
            let seen = visible_to(records, record, domain_id);
            let claimable = record.allowed_domain == domain_id && (record.info.state == 1
                || record.info.state == 2);
            let bridge = is_dependency(records, domain_id, record.info.requester);
            &&& seen.flags == (match (claimable, bridge) {
                (true, true) => record.info.flags | 1 | 4,
                (true, false) => record.info.flags | 1,
                (false, true) => record.info.flags | 4,
                (false, false) => record.info.flags,
            })
            &&& seen.requester == record.info.requester && seen.class == record.info.class
                && seen.subclass == record.info.subclass && seen.state == record.info.state
                && seen.owner_domain == record.info.owner_domain
            &&& bridge ==> record.info.requester == 0
        }),
{
}

/// A policy marks what it gives to its Domain: bit 1 for what is forgotten, bit 2 for what
/// is only read and bit 3 for a partition, whose three identifiers it then carries.
pub proof fn law_policy_marks_its_function(record: DeviceRecord, policy: ManifestDevice)
    ensures
        ({
            let after = assigned(record, policy);
            let a = if policy.has_flag(DEVICE_FLAG_EPHEMERAL) {
                record.info.flags | 2
            } else {
                record.info.flags
            };
            let b = if policy.has_flag(DEVICE_FLAG_READ_ONLY) {
                a | 4
            } else {
                a
            };
            let c = if policy.has_flag(DEVICE_FLAG_PARTITIONED) {
                b | 8
            } else {
                b
            };
            &&& after.allowed_domain == policy.domain_id
            &&& after.info.flags == c
            &&& after.info.requester == record.info.requester && after.info.state
                == record.info.state && after.info.owner_domain == record.info.owner_domain
            &&& policy.has_flag(DEVICE_FLAG_PARTITIONED) ==> after.info.storage_disk_guid
                == policy.storage_disk_guid && after.info.storage_partition_type_guid
                == policy.storage_partition_type_guid && after.info.storage_partition_guid
                == policy.storage_partition_guid
            &&& !policy.has_flag(DEVICE_FLAG_PARTITIONED) ==> after.info.storage_disk_guid
                == record.info.storage_disk_guid && after.info.storage_partition_type_guid
                == record.info.storage_partition_type_guid && after.info.storage_partition_guid
                == record.info.storage_partition_guid
        }),
{
}

} // verus!
