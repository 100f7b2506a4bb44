//! Quota ceilings, usage counters and the arithmetic between them.

use vstd::prelude::*;

use crate::error::{CelError, CelResult};

verus! {

/// Per-tenant ceilings. Zero permits nothing of its kind.
#[derive(Debug, Clone, Copy, PartialEq, Eq, Structural)]
pub struct TenantQuotas {
    /// Total vCPUs.
    pub max_vcpus: u32,
    /// Total memory, in MiB.
    pub max_memory_mib: u64,
    /// Total persistent storage, in bytes.
    pub max_storage_bytes: u64,
    /// Total network throughput, in Mbps.
    pub max_network_mbps: u32,
    /// Total provisioned IOPS.
    pub max_iops: u32,
}

/// What a tenant currently uses.
#[derive(Debug, Clone, Copy, PartialEq, Eq, Structural)]
pub struct QuotaUsage {
    /// Allocated vCPUs.
    pub vcpus: u32,
    /// Allocated memory, in MiB.
    pub memory_mib: u64,
    /// Allocated storage, in bytes.
    pub storage_bytes: u64,
    /// Reserved network throughput, in Mbps.
    pub network_mbps: u32,
    /// Reserved IOPS.
    pub iops: u32,
}

/// One allocation to charge against a tenant.
#[derive(Debug, Clone, Copy, PartialEq, Eq, Structural)]
pub struct QuotaCharge {
    /// vCPUs asked for.
    pub vcpus: u32,
    /// Memory asked for, in MiB.
    pub memory_mib: u64,
    /// Storage asked for, in bytes.
    pub storage_bytes: u64,
    /// Network throughput asked for, in Mbps.
    pub network_mbps: u32,
    /// IOPS asked for.
    pub iops: u32,
}

/// No use of anything.
pub open spec fn no_usage() -> QuotaUsage {
    QuotaUsage { vcpus: 0, memory_mib: 0, storage_bytes: 0, network_mbps: 0, iops: 0 }
}

/// A charge for nothing.
pub open spec fn no_charge() -> QuotaCharge {
    QuotaCharge { vcpus: 0, memory_mib: 0, storage_bytes: 0, network_mbps: 0, iops: 0 }
}

impl Default for TenantQuotas {
    fn default() -> (r: TenantQuotas)
        ensures
            r == (TenantQuotas {
                max_vcpus: 0,
                max_memory_mib: 0,
                max_storage_bytes: 0,
                max_network_mbps: 0,
                max_iops: 0,
            }),
    {
        TenantQuotas {
            max_vcpus: 0,
            max_memory_mib: 0,
            max_storage_bytes: 0,
            max_network_mbps: 0,
            max_iops: 0,
        }
    }
}

impl Default for QuotaUsage {
    fn default() -> (r: QuotaUsage)
        ensures
            r == no_usage(),
    {
        QuotaUsage { vcpus: 0, memory_mib: 0, storage_bytes: 0, network_mbps: 0, iops: 0 }
    }
}

impl Default for QuotaCharge {
    fn default() -> (r: QuotaCharge)
        ensures
            r == no_charge(),
    {
        QuotaCharge { vcpus: 0, memory_mib: 0, storage_bytes: 0, network_mbps: 0, iops: 0 }
    }
}

impl TenantQuotas {
    /// Every ceiling at the largest value of its type.
    pub fn unlimited() -> (r: TenantQuotas)
        ensures
            r == (TenantQuotas {
                max_vcpus: u32::MAX,
                max_memory_mib: u64::MAX,
                max_storage_bytes: u64::MAX,
                max_network_mbps: u32::MAX,
                max_iops: u32::MAX,
            }),
    {
        TenantQuotas {
            max_vcpus: u32::MAX,
            max_memory_mib: u64::MAX,
            max_storage_bytes: u64::MAX,
            max_network_mbps: u32::MAX,
            max_iops: u32::MAX,
        }
    }

    /// Whether no ceiling lies above the matching one of `other`.
    pub open spec fn within(self, other: TenantQuotas) -> bool {
        &&& self.max_vcpus <= other.max_vcpus
        &&& self.max_memory_mib <= other.max_memory_mib
        &&& self.max_storage_bytes <= other.max_storage_bytes
        &&& self.max_network_mbps <= other.max_network_mbps
        &&& self.max_iops <= other.max_iops
    }

    /// See [`TenantQuotas::within`].
    pub fn fits_in(&self, other: &TenantQuotas) -> (r: bool)
        ensures
            r == self.within(*other),
    {
        self.max_vcpus <= other.max_vcpus && self.max_memory_mib <= other.max_memory_mib
            && self.max_storage_bytes <= other.max_storage_bytes && self.max_network_mbps
            <= other.max_network_mbps && self.max_iops <= other.max_iops
    }
}

/// Whether a usage stays under every ceiling.
pub open spec fn under(usage: QuotaUsage, quotas: TenantQuotas) -> bool {
    &&& usage.vcpus <= quotas.max_vcpus
    &&& usage.memory_mib <= quotas.max_memory_mib
    &&& usage.storage_bytes <= quotas.max_storage_bytes
    &&& usage.network_mbps <= quotas.max_network_mbps
    &&& usage.iops <= quotas.max_iops
}

/// A number held to what 32 bits can show.
pub open spec fn clamp32(v: int) -> u32 {
    if v > u32::MAX {
        u32::MAX
    } else if v < 0 {
        0
    } else {
        v as u32
    }
}

/// A number held to what 64 bits can show.
pub open spec fn clamp64(v: int) -> u64 {
    if v > u64::MAX {
        u64::MAX
    } else if v < 0 {
        0
    } else {
        v as u64
    }
}

/// Usage once a charge is added; each counter stops at its type's maximum.
pub open spec fn added(usage: QuotaUsage, charge: QuotaCharge) -> QuotaUsage {
    QuotaUsage {
        vcpus: clamp32(usage.vcpus + charge.vcpus),
        memory_mib: clamp64(usage.memory_mib + charge.memory_mib),
        storage_bytes: clamp64(usage.storage_bytes + charge.storage_bytes),
        network_mbps: clamp32(usage.network_mbps + charge.network_mbps),
        iops: clamp32(usage.iops + charge.iops),
    }
}

/// Usage once a charge is given back; each counter stops at zero.
pub open spec fn removed(usage: QuotaUsage, charge: QuotaCharge) -> QuotaUsage {
    QuotaUsage {
        vcpus: clamp32(usage.vcpus - charge.vcpus),
        memory_mib: clamp64(usage.memory_mib - charge.memory_mib),
        storage_bytes: clamp64(usage.storage_bytes - charge.storage_bytes),
        network_mbps: clamp32(usage.network_mbps - charge.network_mbps),
        iops: clamp32(usage.iops - charge.iops),
    }
}

/// The outcome of a charge: the first ceiling that would be passed, or the
/// new usage.
pub open spec fn charged(usage: QuotaUsage, quotas: TenantQuotas, charge: QuotaCharge) -> CelResult<
    QuotaUsage,
> {
    let n = added(usage, charge);
    if n.vcpus > quotas.max_vcpus {
        Err(CelError::Exhausted("quota.vcpus"))
    } else if n.memory_mib > quotas.max_memory_mib {
        Err(CelError::Exhausted("quota.memory"))
    } else if n.storage_bytes > quotas.max_storage_bytes {
        Err(CelError::Exhausted("quota.storage"))
    } else if n.network_mbps > quotas.max_network_mbps {
        Err(CelError::Exhausted("quota.network"))
    } else if n.iops > quotas.max_iops {
        Err(CelError::Exhausted("quota.iops"))
    } else {
        Ok(n)
    }
}

/// Adds `charge` to `usage`, unless that would pass a ceiling.
pub fn charge_quota(usage: QuotaUsage, quotas: TenantQuotas, charge: QuotaCharge) -> (r: CelResult<
    QuotaUsage,
>)
    ensures
        r == charged(usage, quotas, charge),
{
    let new_vcpus: u32 = usage.vcpus.saturating_add(charge.vcpus);
    let new_memory: u64 = usage.memory_mib.saturating_add(charge.memory_mib);
    let new_storage: u64 = usage.storage_bytes.saturating_add(charge.storage_bytes);
    let new_network: u32 = usage.network_mbps.saturating_add(charge.network_mbps);
    let new_iops: u32 = usage.iops.saturating_add(charge.iops);
    if new_vcpus > quotas.max_vcpus {
        return Err(CelError::Exhausted("quota.vcpus"));
    }
    if new_memory > quotas.max_memory_mib {
        return Err(CelError::Exhausted("quota.memory"));
    }
    if new_storage > quotas.max_storage_bytes {
        return Err(CelError::Exhausted("quota.storage"));
    }
    if new_network > quotas.max_network_mbps {
        return Err(CelError::Exhausted("quota.network"));
    }
    if new_iops > quotas.max_iops {
        return Err(CelError::Exhausted("quota.iops"));
    }
    Ok(
        QuotaUsage {
            vcpus: new_vcpus,
            memory_mib: new_memory,
            storage_bytes: new_storage,
            network_mbps: new_network,
            iops: new_iops,
        },
    )
}

/// Gives `charge` back. A counter never falls below zero.
pub fn release_quota(usage: QuotaUsage, charge: QuotaCharge) -> (r: QuotaUsage)
    ensures
        r == removed(usage, charge),
{
    QuotaUsage {
        vcpus: usage.vcpus.saturating_sub(charge.vcpus),
        memory_mib: usage.memory_mib.saturating_sub(charge.memory_mib),
        storage_bytes: usage.storage_bytes.saturating_sub(charge.storage_bytes),
        network_mbps: usage.network_mbps.saturating_sub(charge.network_mbps),
        iops: usage.iops.saturating_sub(charge.iops),
    }
}

/// Whether adding a charge keeps every counter within its type.
pub open spec fn no_overflow(usage: QuotaUsage, charge: QuotaCharge) -> bool {
    &&& usage.vcpus + charge.vcpus <= u32::MAX
    &&& usage.memory_mib + charge.memory_mib <= u64::MAX
    &&& usage.storage_bytes + charge.storage_bytes <= u64::MAX
    &&& usage.network_mbps + charge.network_mbps <= u32::MAX
    &&& usage.iops + charge.iops <= u32::MAX
}

/// Giving back what was charged restores the usage, as long as no counter
/// reached the end of its type.
pub proof fn law_release_undoes_charge(usage: QuotaUsage, charge: QuotaCharge)
    requires
        no_overflow(usage, charge),
    ensures
        removed(added(usage, charge), charge) == usage,
{
}

/// A charge that is accepted leaves the usage under every ceiling.
pub proof fn law_charge_stays_under(usage: QuotaUsage, quotas: TenantQuotas, charge: QuotaCharge)
    ensures
        charged(usage, quotas, charge) matches Ok(n) ==> under(n, quotas) && n == added(
            usage,
            charge,
        ),
        charged(usage, quotas, charge) is Ok <==> under(added(usage, charge), quotas),
{
}

/// Giving back never raises a counter.
pub proof fn law_release_lowers(usage: QuotaUsage, quotas: TenantQuotas, charge: QuotaCharge)
    ensures
        under(usage, quotas) ==> under(removed(usage, charge), quotas),
{
}

} // verus!
