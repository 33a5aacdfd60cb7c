use mboot::domain::DomainId;
use mboot::grant::{GrantError, GrantRef, GrantTable, MAX_GRANTS};

#[test]
fn grant_lifecycle_enforces_endpoint_ownership() {
    let mut table = GrantTable::new();
    let owner = DomainId::new(1);
    let target = DomainId::new(2);
    let reference = table.create(owner, target, 0x8000, true).unwrap();
    assert_eq!(
        table.map(DomainId::new(3), reference, 0x9000),
        Err(GrantError::AccessDenied)
    );
    let mapping = table.map(target, reference, 0x9000).unwrap();
    assert_eq!(mapping.host_page, 0x8000);
    assert!(mapping.writable);
    assert_eq!(table.revoke(owner, reference), Err(GrantError::Busy));
    assert_eq!(table.unmap(target, reference), Ok(mapping));
    assert_eq!(table.revoke(owner, reference), Ok(()));
}

#[test]
fn range_grant_maps_and_detects_overlapping_targets() {
    let mut table = GrantTable::new();
    let owner = DomainId::new(1);
    let target = DomainId::new(2);
    let reference = table
        .create_range(owner, target, 0x8000, 3, true)
        .unwrap();
    let mapping = table.map(target, reference, 0x20_000).unwrap();
    assert_eq!(mapping.page_count, 3);
    assert!(table.target_page_is_mapped(target, 0x21_000));
    let overlap = table
        .create_range(owner, target, 0x40_000, 2, false)
        .unwrap();
    assert_eq!(
        table.map(target, overlap, 0x22_000),
        Err(GrantError::AlreadyMapped)
    );
    assert_eq!(table.unmap(target, reference), Ok(mapping));
}

#[test]
fn grant_refs_are_nonzero_and_stale_refs_are_rejected() {
    let mut table = GrantTable::new();
    let owner = DomainId::new(1);
    let target = DomainId::new(2);
    let reference = table.create(owner, target, 0x8000, false).unwrap();
    assert_ne!(reference.get(), 0);
    assert_eq!(table.revoke(owner, reference), Ok(()));
    let replacement = table.create(owner, target, 0xa000, false).unwrap();
    assert_ne!(replacement, reference);
    assert_eq!(
        table.map(target, reference, 0x9000),
        Err(GrantError::UnknownGrant)
    );
}

#[test]
fn target_discovers_only_its_own_grants() {
    let mut table = GrantTable::new();
    let owner = DomainId::new(1);
    let target = DomainId::new(2);
    let first = table.create(owner, target, 0x8000, true).unwrap();
    let other = table.create(owner, DomainId::new(3), 0x9000, true).unwrap();
    let second = table.create(owner, target, 0xa000, false).unwrap();
    assert_eq!(table.query_target(target, 0), Some(first));
    assert_eq!(table.query_target(target, 1), Some(second));
    assert_eq!(table.query_target(target, 2), None);
    assert_eq!(table.query_target(DomainId::new(3), 0), Some(other));
}

#[test]
fn cleanup_returns_live_mappings_and_revokes_refs() {
    let mut table = GrantTable::new();
    let owner = DomainId::new(1);
    let target = DomainId::new(2);
    let reference = table.create(owner, target, 0x8000, true).unwrap();
    let mapping = table.map(target, reference, 0x9000).unwrap();
    let cleanup = table.cleanup_domain(owner);
    assert_eq!(cleanup[0], Some(mapping));
    assert!(!table.references_domain(owner));
    assert_eq!(
        table.unmap(target, reference),
        Err(GrantError::UnknownGrant)
    );
}

#[test]
fn stopped_unmapped_target_does_not_steal_owner_revoke() {
    let mut table = GrantTable::new();
    let owner = DomainId::new(1);
    let target = DomainId::new(2);
    let reference = table.create(owner, target, 0x8000, true).unwrap();
    assert_eq!(table.cleanup_domain(target), [None; MAX_GRANTS]);
    assert_eq!(table.revoke(owner, reference), Ok(()));
}

#[test]
fn crashed_unmapped_target_revokes_the_stale_grant() {
    let mut table = GrantTable::new();
    let owner = DomainId::new(1);
    let target = DomainId::new(2);
    let reference = table.create(owner, target, 0x8000, true).unwrap();
    assert_eq!(table.cleanup_crashed_domain(target), [None; MAX_GRANTS]);
    assert!(!table.references_domain(target));
    assert_eq!(
        table.revoke(owner, reference),
        Err(GrantError::UnknownGrant)
    );
}

#[test]
fn unusable_grants_are_refused() {
    let mut table = GrantTable::new();
    let owner = DomainId::new(1);
    let target = DomainId::new(2);
    assert_eq!(table.create(owner, target, 0, true), Err(GrantError::InvalidPage));
    assert_eq!(table.create(owner, target, 0x8001, true), Err(GrantError::InvalidPage));
    assert_eq!(table.create(owner, owner, 0x8000, true), Err(GrantError::InvalidTarget));
    let reference = table.create(owner, target, 0x8000, true).unwrap();
    assert_eq!(table.unmap(target, reference), Err(GrantError::NotMapped));
    assert_eq!(table.revoke(target, reference), Err(GrantError::AccessDenied));
    assert_eq!(table.mapping_page_count(target, reference), Some(1));
    assert_eq!(GrantRef::new(0), None);
    for _ in 1..MAX_GRANTS {
        table.create(owner, target, 0x9000, false).unwrap();
    }
    assert_eq!(table.create(owner, target, 0x9000, false), Err(GrantError::TableFull));
}

#[test]
fn a_fresh_table_references_nobody() {
    let table = GrantTable::default();
    assert!(!table.references_domain(DomainId::new(1)));
    assert_eq!(table.query_target(DomainId::new(1), 0), None);
    assert!(!table.target_range_is_mapped(DomainId::new(1), 0x1000, 4));
}

#[test]
fn a_target_is_told_of_each_grant_once() {
    let mut table = GrantTable::new();
    let owner = DomainId::new(1);
    let target = DomainId::new(2);
    let first = table.create(owner, target, 0x8000, true).unwrap();
    table.create(owner, DomainId::new(3), 0x9000, true).unwrap();
    let second = table.create(owner, target, 0xa000, false).unwrap();
    assert_eq!(table.query_target(target, 0), Some(first));
    assert_eq!(table.query_target(target, 1), Some(second));
    assert_eq!(table.query_target(target, 2), None);
    assert_eq!(GrantRef::new(second.get()), Some(second));
}
