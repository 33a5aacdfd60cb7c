//! Domains: the isolated guests of the machine.
//!
//! A Domain has no more states and rights than its callers, the launch, the supervisor
//! and the hypercalls, tell apart.

use vstd::prelude::*;

use crate::abi::{
    DOMAIN_ROLE_APPLICATION, DOMAIN_ROLE_HARDWARE, DOMAIN_ROLE_SYSTEM, HYPERVISOR_BACKEND_AMD_SVM,
    HYPERVISOR_BACKEND_INTEL_VMX,
};
use crate::manifest::ManifestDomainRole;
use crate::memory::NestedPageTable;
use crate::{BackendKind, Error};

verus! {

/// The number of a Domain.
#[derive(Clone, Copy, Debug, PartialEq, Eq, Structural)]
pub struct DomainId {
    pub value: u32,
}

impl DomainId {
    pub fn new(value: u32) -> (r: Self)
        ensures
            r == (DomainId { value }),
    {
        DomainId { value }
    }

    pub fn get(self) -> (r: u32)
        ensures
            r == self.value,
    {
        self.value
    }
}

/// What a Domain is for.
#[derive(Clone, Copy, Debug, PartialEq, Eq, Structural)]
pub enum DomainRole {
    System,
    Hardware,
    Application,
}

pub open spec fn role_for(role: ManifestDomainRole) -> DomainRole {
    match role {
        ManifestDomainRole::System => DomainRole::System,
        ManifestDomainRole::Hardware => DomainRole::Hardware,
        ManifestDomainRole::Application => DomainRole::Application,
    }
}

impl DomainRole {
    /// The role that the manifest gives a Domain.
    pub fn of_manifest(role: ManifestDomainRole) -> (r: Self)
        ensures
            r == role_for(role),
    {
        match role {
            ManifestDomainRole::System => DomainRole::System,
            ManifestDomainRole::Hardware => DomainRole::Hardware,
            ManifestDomainRole::Application => DomainRole::Application,
        }
    }
}

/// How far a Domain has come.
#[derive(Clone, Copy, Debug, PartialEq, Eq, Structural)]
pub enum DomainState {
    Created,
    Ready,
    Running,
    Stopped,
    Crashed,
}

pub open spec fn role_number(role: DomainRole) -> u32 {
    match role {
        DomainRole::System => DOMAIN_ROLE_SYSTEM,
        DomainRole::Hardware => DOMAIN_ROLE_HARDWARE,
        DomainRole::Application => DOMAIN_ROLE_APPLICATION,
    }
}

/// The number by which a guest knows a role.
pub fn abi_domain_role(role: DomainRole) -> (r: u32)
    ensures
        r == role_number(role),
{
    match role {
        DomainRole::System => DOMAIN_ROLE_SYSTEM,
        DomainRole::Hardware => DOMAIN_ROLE_HARDWARE,
        DomainRole::Application => DOMAIN_ROLE_APPLICATION,
    }
}

pub open spec fn backend_number(backend: BackendKind) -> u32 {
    match backend {
        BackendKind::IntelVmx => HYPERVISOR_BACKEND_INTEL_VMX,
        BackendKind::AmdSvm => HYPERVISOR_BACKEND_AMD_SVM,
    }
}

/// The number by which a guest knows the processor's virtualization.
pub fn abi_backend(backend: BackendKind) -> (r: u32)
    ensures
        r == backend_number(backend),
{
    match backend {
        BackendKind::IntelVmx => HYPERVISOR_BACKEND_INTEL_VMX,
        BackendKind::AmdSvm => HYPERVISOR_BACKEND_AMD_SVM,
    }
}

/// A Domain: what it is, what it may do and where its memory is.
#[derive(Clone, Copy, Debug)]
pub struct Domain {
    pub id: DomainId,
    pub role: DomainRole,
    pub capabilities: u64,
    pub backend: BackendKind,
    pub state: DomainState,
    pub nested_pages: NestedPageTable,
}

impl Domain {
    /// A Domain that does not run yet.
    pub fn new(
        id: DomainId,
        role: DomainRole,
        capabilities: u64,
        backend: BackendKind,
        nested_pages: NestedPageTable,
    ) -> (r: Self)
        ensures
            r == (Domain {
                id,
                role,
                capabilities,
                backend,
                state: DomainState::Created,
                nested_pages,
            }),
    {
        Domain { id, role, capabilities, backend, state: DomainState::Created, nested_pages }
    }

    /// The Domain may be started.
    pub fn mark_ready(&mut self) -> (r: Result<(), Error>)
        ensures
            r == (if old(self).state == DomainState::Created {
                Ok::<(), Error>(())
            } else {
                Err(Error::InvalidState)
            }),
            *final(self) == (Domain {
                state: if r is Ok {
                    DomainState::Ready
                } else {
                    old(self).state
                },
                ..*old(self)
            }),
    {
        if self.state != DomainState::Created {
            return Err(Error::InvalidState);
        }
        self.state = DomainState::Ready;
        Ok(())
    }

    pub fn start(&mut self) -> (r: Result<(), Error>)
        ensures
            r == (if old(self).state == DomainState::Ready {
                Ok::<(), Error>(())
            } else {
                Err(Error::InvalidState)
            }),
            *final(self) == (Domain {
                state: if r is Ok {
                    DomainState::Running
                } else {
                    old(self).state
                },
                ..*old(self)
            }),
    {
        if self.state != DomainState::Ready {
            return Err(Error::InvalidState);
        }
        self.state = DomainState::Running;
        Ok(())
    }

    /// The Domain has ended by itself.
    pub fn stop(&mut self) -> (r: Result<(), Error>)
        ensures
            r == (if old(self).state == DomainState::Running {
                Ok::<(), Error>(())
            } else {
                Err(Error::InvalidState)
            }),
            *final(self) == (Domain {
                state: if r is Ok {
                    DomainState::Stopped
                } else {
                    old(self).state
                },
                ..*old(self)
            }),
    {
        if self.state != DomainState::Running {
            return Err(Error::InvalidState);
        }
        self.state = DomainState::Stopped;
        Ok(())
    }

    /// The Domain cannot go on.
    pub fn mark_crashed(&mut self) -> (r: Result<(), Error>)
        ensures
            r == (if old(self).state == DomainState::Running {
                Ok::<(), Error>(())
            } else {
                Err(Error::InvalidState)
            }),
            *final(self) == (Domain {
                state: if r is Ok {
                    DomainState::Crashed
                } else {
                    old(self).state
                },
                ..*old(self)
            }),
    {
        if self.state != DomainState::Running {
            return Err(Error::InvalidState);
        }
        self.state = DomainState::Crashed;
        Ok(())
    }

    /// The Domain has ended and may be started once more.
    pub fn prepare_restart(&mut self) -> (r: Result<(), Error>)
        ensures
            r == (if old(self).state == DomainState::Stopped || old(self).state
                == DomainState::Crashed {
                Ok::<(), Error>(())
            } else {
                Err(Error::InvalidState)
            }),
            *final(self) == (Domain {
                state: if r is Ok {
                    DomainState::Ready
                } else {
                    old(self).state
                },
                ..*old(self)
            }),
    {
        if self.state != DomainState::Stopped && self.state != DomainState::Crashed {
            return Err(Error::InvalidState);
        }
        self.state = DomainState::Ready;
        Ok(())
    }
}

/// The numbers by which a guest knows roles and backends, and the role that each role of
/// the manifest becomes.
pub proof fn law_roles_and_backends_have_their_numbers(role: DomainRole, manifest: ManifestDomainRole)
    ensures
        role_number(DomainRole::System) == 1,
        role_number(DomainRole::Hardware) == 2,
        role_number(DomainRole::Application) == 3,
        backend_number(BackendKind::IntelVmx) == 1,
        backend_number(BackendKind::AmdSvm) == 2,
        role_for(manifest) == DomainRole::System <==> manifest == ManifestDomainRole::System,
        role_for(manifest) == DomainRole::Hardware <==> manifest == ManifestDomainRole::Hardware,
        role_for(manifest) == DomainRole::Application <==> manifest
            == ManifestDomainRole::Application,
{
}

} // verus!
