use crate::compute::binary32;
use vstd::prelude::*;

verus! {

/// Thermal state of the device; it scales the capacity score.
#[derive(Debug, Clone, Copy, PartialEq, Eq, Structural)]
pub enum ThermalState {
    /// Normal operating temperature.
    Nominal,
    /// Running warm, not yet throttling.
    Warm,
    /// CPU/GPU is throttled because of heat.
    Throttling,
    /// Critical temperature: the node should drain and disconnect.
    Critical,
}

/// Binary32 bit patterns of the thermal penalty factors.
pub const PENALTY_NOMINAL: u32 = 0x3f80_0000;
pub const PENALTY_WARM: u32 = 0x3f59_999a;
pub const PENALTY_THROTTLING: u32 = 0x3ecc_cccd;
pub const PENALTY_CRITICAL: u32 = 0;

/// The penalty factor of each state: 1.0, 0.85, 0.4 and 0.0.
pub open spec fn penalty(s: ThermalState) -> u32 {
    match s {
        ThermalState::Nominal => PENALTY_NOMINAL,
        ThermalState::Warm => PENALTY_WARM,
        ThermalState::Throttling => PENALTY_THROTTLING,
        ThermalState::Critical => PENALTY_CRITICAL,
    }
}

impl ThermalState {
    /// The factor applied to the capacity score (1.0 is no penalty, 0.0 is
    /// full penalty), as a binary32 bit pattern.
    pub fn penalty_factor(&self) -> (r: u32)
        ensures
            r == penalty(*self),
    {
        match self {
            ThermalState::Nominal => PENALTY_NOMINAL,
            ThermalState::Warm => PENALTY_WARM,
            ThermalState::Throttling => PENALTY_THROTTLING,
            ThermalState::Critical => PENALTY_CRITICAL,
        }
    }
}

/// Hotter states are penalized more: the factors decrease strictly from
/// `Nominal` to `Critical`, and all lie between 0.0 and 1.0.
pub proof fn lemma_penalty_decreases_with_heat()
    ensures
        binary32::lt_spec(penalty(ThermalState::Warm), penalty(ThermalState::Nominal)),
        binary32::lt_spec(penalty(ThermalState::Throttling), penalty(ThermalState::Warm)),
        binary32::lt_spec(penalty(ThermalState::Critical), penalty(ThermalState::Throttling)),
        penalty(ThermalState::Nominal) == binary32::ONE,
        penalty(ThermalState::Critical) == binary32::ZERO,
{
}

/// A snapshot of a node's resource availability.
pub struct NodeStatus {
    /// CPU usage across all cores, 0.0 idle to 1.0 fully loaded (binary32 bits).
    pub cpu_usage: u32,
    /// RAM in use by all processes, in MB.
    pub ram_used_mb: u64,
    /// RAM available for new allocations, in MB.
    pub ram_available_mb: u64,
    /// Current thermal state.
    pub thermal: ThermalState,
    /// When the snapshot was measured, if it was measured on this node.
    pub measured_at: Option<std::time::Instant>,
}

impl NodeStatus {
    /// The initial status of a node nothing is known about yet: idle, no RAM,
    /// nominal temperature, never measured.
    pub fn unknown() -> (r: NodeStatus)
        ensures
            r.cpu_usage == binary32::ZERO,
            r.ram_used_mb == 0,
            r.ram_available_mb == 0,
            r.thermal == ThermalState::Nominal,
            r.measured_at is None,
    {
        NodeStatus {
            cpu_usage: binary32::ZERO,
            ram_used_mb: 0,
            ram_available_mb: 0,
            thermal: ThermalState::Nominal,
            measured_at: None,
        }
    }
}

/// Two statuses are equal when their readings are (CPU usage compared as a
/// number); the measurement time is not compared.
pub open spec fn same_readings(a: &NodeStatus, b: &NodeStatus) -> bool {
    &&& binary32::eq_spec(a.cpu_usage, b.cpu_usage)
    &&& a.ram_used_mb == b.ram_used_mb
    &&& a.ram_available_mb == b.ram_available_mb
    &&& a.thermal == b.thermal
}

impl PartialEq for NodeStatus {
    fn eq(&self, other: &Self) -> (r: bool) {
        binary32::eq(self.cpu_usage, other.cpu_usage) && self.ram_used_mb == other.ram_used_mb
            && self.ram_available_mb == other.ram_available_mb && self.thermal == other.thermal
    }
}

impl vstd::std_specs::cmp::PartialEqSpecImpl for NodeStatus {
    open spec fn obeys_eq_spec() -> bool {
        true
    }

    open spec fn eq_spec(&self, other: &NodeStatus) -> bool {
        same_readings(self, other)
    }
}

} // verus!
