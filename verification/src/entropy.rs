//! Random seeds for Domains.
//!
//! One root is gathered while the firmware runs; each start of each Domain gets a
//! seed that is derived from it.

use vstd::prelude::*;

use crate::bytes::{law_le32_reads_back, le32, push_u32, u32_at};
use crate::manifest::{sha256, sha256_digest};

verus! {

/// "mBoot Domain entropy root v1"
pub const ROOT_LABEL: [u8; 28] = [
    0x6d, 0x42, 0x6f, 0x6f, 0x74, 0x20, 0x44, 0x6f, 0x6d, 0x61, 0x69, 0x6e, 0x20, 0x65, 0x6e, 0x74,
    0x72, 0x6f, 0x70, 0x79, 0x20, 0x72, 0x6f, 0x6f, 0x74, 0x20, 0x76, 0x31,
];

/// "mBoot Domain entropy v1"
pub const DOMAIN_LABEL: [u8; 23] = [
    0x6d, 0x42, 0x6f, 0x6f, 0x74, 0x20, 0x44, 0x6f, 0x6d, 0x61, 0x69, 0x6e, 0x20, 0x65, 0x6e, 0x74,
    0x72, 0x6f, 0x70, 0x79, 0x20, 0x76, 0x31,
];

pub open spec fn flag_byte(flag: bool) -> u8 {
    if flag {
        1
    } else {
        0
    }
}

/// What the root is the digest of.
pub open spec fn root_message_of(
    material: Seq<u8>,
    firmware_available: bool,
    hardware_available: bool,
) -> Seq<u8> {
    ROOT_LABEL@ + seq![flag_byte(firmware_available), flag_byte(hardware_available)] + material
}

/// What the seed of a Domain is the digest of.
pub open spec fn domain_message_of(root: Seq<u8>, domain_id: u32, restart_count: u32) -> Seq<u8> {
    DOMAIN_LABEL@ + root + le32(domain_id) + le32(restart_count)
}

fn push_all(out: &mut Vec<u8>, bytes: &[u8])
    ensures
        final(out)@ == old(out)@ + bytes@,
{
    let ghost before = out@;
    let mut i: usize = 0;
    while i < bytes.len()
        invariant
            i <= bytes.len(),
            out@ == before + bytes@.take(i as int),
        decreases bytes.len() - i,
    {
        out.push(bytes[i]);
        assert(bytes@.take(i + 1) =~= bytes@.take(i as int).push(bytes@[i as int]));
        i += 1;
    }
    assert(bytes@.take(i as int) =~= bytes@);
}

/// Puts together what the root is the digest of.
pub fn root_message(
    material: &[u8; 64],
    firmware_available: bool,
    hardware_available: bool,
) -> (r: Vec<u8>)
    ensures
        r@ == root_message_of(material@, firmware_available, hardware_available),
{
    let mut message: Vec<u8> = Vec::new();
    push_all(&mut message, &ROOT_LABEL);
    message.push(
        if firmware_available {
            1
        } else {
            0
        },
    );
    message.push(
        if hardware_available {
            1
        } else {
            0
        },
    );
    push_all(&mut message, material);
    assert(message@ =~= root_message_of(material@, firmware_available, hardware_available));
    message
}

/// Puts together what the seed of a Domain is the digest of.
pub fn domain_message(root: &[u8; 32], domain_id: u32, restart_count: u32) -> (r: Vec<u8>)
    ensures
        r@ == domain_message_of(root@, domain_id, restart_count),
{
    let mut message: Vec<u8> = Vec::new();
    push_all(&mut message, &DOMAIN_LABEL);
    push_all(&mut message, root);
    push_u32(&mut message, domain_id);
    push_u32(&mut message, restart_count);
    assert(message@ =~= domain_message_of(root@, domain_id, restart_count));
    message
}

/// The root, from 32 bytes of the firmware's generator and 32 of the processor's,
/// where at least one of the two worked. The bytes are wiped.
pub fn collect_boot_entropy(
    material: &mut [u8; 64],
    firmware_available: bool,
    hardware_available: bool,
) -> (r: Option<[u8; 32]>)
    ensures
        if firmware_available || hardware_available {
            &&& r matches Some(root)
            &&& root@ == sha256_digest(
                root_message_of(old(material)@, firmware_available, hardware_available),
            )
            &&& forall|i: int| 0 <= i < 64 ==> #[trigger] final(material)@[i] == 0
        } else {
            r is None && final(material)@ == old(material)@
        },
{
    if !firmware_available && !hardware_available {
        return None;
    }
    let message = root_message(material, firmware_available, hardware_available);
    *material = [0; 64];
    Some(sha256(&message))
}

/// The seed of a Domain for one of its starts.
pub fn derive_domain_entropy(root: &[u8; 32], domain_id: u32, restart_count: u32) -> (r: [u8; 32])
    ensures
        r@ == sha256_digest(domain_message_of(root@, domain_id, restart_count)),
{
    let message = domain_message(root, domain_id, restart_count);
    sha256(&message)
}

/// No two starts, of the same Domain or of two, have their seeds from the same
/// message.
pub proof fn law_every_start_has_its_own_message(
    root: Seq<u8>,
    domain_a: u32,
    restart_a: u32,
    domain_b: u32,
    restart_b: u32,
)
    requires
        domain_message_of(root, domain_a, restart_a) == domain_message_of(
            root,
            domain_b,
            restart_b,
        ),
    ensures
        domain_a == domain_b,
        restart_a == restart_b,
{
    let a = domain_message_of(root, domain_a, restart_a);
    let b = domain_message_of(root, domain_b, restart_b);
    let at = (DOMAIN_LABEL@.len() + root.len()) as int;
    assert(a.subrange(at, at + 4) =~= le32(domain_a));
    assert(a.subrange(at + 4, at + 8) =~= le32(restart_a));
    assert(b.subrange(at, at + 4) =~= le32(domain_b));
    assert(b.subrange(at + 4, at + 8) =~= le32(restart_b));
    law_le32_reads_back(a, at, domain_a);
    law_le32_reads_back(b, at, domain_b);
    law_le32_reads_back(a, at + 4, restart_a);
    law_le32_reads_back(b, at + 4, restart_b);
}

/// The root depends on everything that was gathered: two messages are the same only where
/// the material is and the same generators worked.
pub proof fn law_root_message_holds_all_of_its_sources(
    a: Seq<u8>,
    firmware_a: bool,
    hardware_a: bool,
    b: Seq<u8>,
    firmware_b: bool,
    hardware_b: bool,
)
    requires
        root_message_of(a, firmware_a, hardware_a) == root_message_of(b, firmware_b, hardware_b),
    ensures
        a == b,
        firmware_a == firmware_b,
        hardware_a == hardware_b,
{
    let x = root_message_of(a, firmware_a, hardware_a);
    let y = root_message_of(b, firmware_b, hardware_b);
    assert(x[28] == flag_byte(firmware_a) && y[28] == flag_byte(firmware_b));
    assert(x[29] == flag_byte(hardware_a) && y[29] == flag_byte(hardware_b));
    assert(x.skip(30) =~= a);
    assert(y.skip(30) =~= b);
}

/// The seed of a Domain depends on the root: two messages of one start are the same only
/// where the roots are. And no message for a seed is ever one for the root.
pub proof fn law_seed_message_holds_the_root(
    a: Seq<u8>,
    b: Seq<u8>,
    domain_id: u32,
    restart_count: u32,
    material: Seq<u8>,
    firmware: bool,
    hardware: bool,
)
    requires
        a.len() == 32,
        b.len() == 32,
        material.len() == 64,
    ensures
        domain_message_of(a, domain_id, restart_count) == domain_message_of(
            b,
            domain_id,
            restart_count,
        ) ==> a == b,
        domain_message_of(a, domain_id, restart_count).len() == 63,
        root_message_of(material, firmware, hardware).len() == 94,
        domain_message_of(a, domain_id, restart_count).subrange(23, 55) == a,
        u32_at(domain_message_of(a, domain_id, restart_count), 55) == domain_id,
        u32_at(domain_message_of(a, domain_id, restart_count), 59) == restart_count,
{
    let x = domain_message_of(a, domain_id, restart_count);
    let y = domain_message_of(b, domain_id, restart_count);
    assert(x.subrange(23, 55) =~= a);
    assert(y.subrange(23, 55) =~= b);
    assert(x.subrange(55, 59) =~= le32(domain_id));
    assert(x.subrange(59, 63) =~= le32(restart_count));
    law_le32_reads_back(x, 55, domain_id);
    law_le32_reads_back(x, 59, restart_count);
}

} // verus!
