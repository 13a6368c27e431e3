use crate::compute::binary32;
use crate::compute::profile::DeviceType;
use vstd::prelude::*;

verus! {

/// The share of a device kept for its user and off-limits to the swarm.
///
/// With 10 cores and a 20% reservation, at most 8 cores' worth of CPU goes to
/// the swarm however idle the user is, so the user always keeps headroom.
pub struct ResourceReservation {
    /// Fraction of the CPU reserved for the user, 0.0 to 1.0 (binary32 bits).
    pub cpu_reserved: u32,
    /// RAM always kept for the OS and the user's applications, in MB.
    pub ram_reserved_mb: u64,
}

/// Binary32 bit patterns of the default CPU reservations and of the cap of
/// a custom one.
pub const CPU_RESERVED_SERVER: u32 = 0x3d4c_cccd;
pub const CPU_RESERVED_DESKTOP: u32 = 0x3e4c_cccd;
pub const CPU_RESERVED_LAPTOP: u32 = 0x3e99_999a;
pub const CPU_RESERVED_MOBILE: u32 = 0x3ecc_cccd;
pub const CPU_RESERVED_EMBEDDED: u32 = 0x3dcc_cccd;
pub const CPU_RESERVED_MAX: u32 = 0x3f73_3333;

/// The default reservation of each device class: 5% and 512 MB for a
/// server, 20% and 2 GB for a desktop, 30% and 2 GB for a laptop, 40% and
/// 1 GB for a mobile, 10% and 256 MB for an embedded board.
pub open spec fn default_reservation(device_type: DeviceType) -> (u32, u64) {
    match device_type {
        DeviceType::Server => (CPU_RESERVED_SERVER, 512),
        DeviceType::Desktop => (CPU_RESERVED_DESKTOP, 2048),
        DeviceType::Laptop => (CPU_RESERVED_LAPTOP, 2048),
        DeviceType::Mobile => (CPU_RESERVED_MOBILE, 1024),
        DeviceType::Embedded => (CPU_RESERVED_EMBEDDED, 256),
    }
}

/// `x` clamped to the range 0.0 to 0.95 as binary32 clamping does it: values
/// below 0.0 become 0.0, values above 0.95 become 0.95, NaN stays NaN.
pub open spec fn clamp_cpu_reserved(x: u32) -> u32 {
    if binary32::lt_spec(x, binary32::ZERO) {
        binary32::ZERO
    } else if binary32::lt_spec(CPU_RESERVED_MAX, x) {
        CPU_RESERVED_MAX
    } else {
        x
    }
}

impl ResourceReservation {
    /// The default reservation for a device class (see the table above).
    pub fn for_device(device_type: &DeviceType) -> (r: ResourceReservation)
        ensures
            (r.cpu_reserved, r.ram_reserved_mb) == default_reservation(*device_type),
    {
        match device_type {
            DeviceType::Server => ResourceReservation { cpu_reserved: CPU_RESERVED_SERVER, ram_reserved_mb: 512 },
            DeviceType::Desktop => ResourceReservation { cpu_reserved: CPU_RESERVED_DESKTOP, ram_reserved_mb: 2048 },
            DeviceType::Laptop => ResourceReservation { cpu_reserved: CPU_RESERVED_LAPTOP, ram_reserved_mb: 2048 },
            DeviceType::Mobile => ResourceReservation { cpu_reserved: CPU_RESERVED_MOBILE, ram_reserved_mb: 1024 },
            DeviceType::Embedded => ResourceReservation {
                cpu_reserved: CPU_RESERVED_EMBEDDED,
                ram_reserved_mb: 256,
            },
        }
    }

    /// A custom reservation; the CPU share is clamped to 0.0 to 0.95.
    pub fn custom(cpu_reserved: u32, ram_reserved_mb: u64) -> (r: ResourceReservation)
        ensures
            r.cpu_reserved == clamp_cpu_reserved(cpu_reserved),
            r.ram_reserved_mb == ram_reserved_mb,
    {
        let clamped = if binary32::lt(cpu_reserved, binary32::ZERO) {
            binary32::ZERO
        } else if binary32::lt(CPU_RESERVED_MAX, cpu_reserved) {
            CPU_RESERVED_MAX
        } else {
            cpu_reserved
        };
        ResourceReservation { cpu_reserved: clamped, ram_reserved_mb }
    }
}

/// A server reserves less than a laptop, in CPU and in RAM.
pub proof fn lemma_server_reserves_less_than_laptop()
    ensures
        binary32::lt_spec(
            default_reservation(DeviceType::Server).0,
            default_reservation(DeviceType::Laptop).0,
        ),
        default_reservation(DeviceType::Server).1 < default_reservation(DeviceType::Laptop).1,
{
}

/// Every default CPU reservation is a number between 0.0 and 0.95, so
/// clamping leaves it as it is.
pub proof fn lemma_defaults_within_clamp(device_type: DeviceType)
    ensures
        clamp_cpu_reserved(default_reservation(device_type).0) == default_reservation(device_type).0,
{
}

/// The effective capacity of a node, which decides its share of the layers.
#[derive(Clone, Copy)]
pub struct EffectiveCapacity {
    /// CPU capacity left after the reservation and current usage, 0.0 to 1.0
    /// (binary32 bits).
    pub cpu_score: u32,
    /// RAM available for inference after the reservation, in MB.
    pub ram_available_mb: u64,
    /// Composite score used for proportional layer distribution, 0.0 to 1.0
    /// (binary32 bits).
    pub composite: u32,
}

impl EffectiveCapacity {
    /// No capacity at all (offline or critical nodes).
    pub fn zero() -> (r: EffectiveCapacity)
        ensures
            r.cpu_score == binary32::ZERO,
            r.ram_available_mb == 0,
            r.composite == binary32::ZERO,
    {
        EffectiveCapacity { cpu_score: binary32::ZERO, ram_available_mb: 0, composite: binary32::ZERO }
    }
}


/// A custom CPU reservation always lands between 0.0 and 0.95, as numbers:
/// a value below is raised to 0.0, one above lowered to 0.95, and one
/// already in range is kept as it is.
pub proof fn lemma_custom_reservation_in_range(x: u32)
    requires
        !binary32::is_nan(x),
    ensures
        0 <= binary32::rank(clamp_cpu_reserved(x)) <= binary32::rank(CPU_RESERVED_MAX),
        0 <= binary32::rank(x) <= binary32::rank(CPU_RESERVED_MAX) ==> clamp_cpu_reserved(x) == x,
        binary32::rank(x) < 0 ==> clamp_cpu_reserved(x) == binary32::ZERO,
        binary32::rank(x) > binary32::rank(CPU_RESERVED_MAX) ==> clamp_cpu_reserved(x) == CPU_RESERVED_MAX,
{
    binary32::lemma_rank_agrees_with_lt(x, binary32::ZERO);
    binary32::lemma_rank_agrees_with_lt(CPU_RESERVED_MAX, x);
}

} // verus!
