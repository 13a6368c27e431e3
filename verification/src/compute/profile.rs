use vstd::prelude::*;

verus! {

/// CPU architecture of the node.
#[derive(Debug, Clone, Copy, PartialEq, Eq, Structural)]
pub enum Architecture {
    X86_64,
    Aarch64,
    Other,
}

/// Classification of a device; it decides the default resource reservation.
///
/// | Type     | CPU reserved | RAM reserved |
/// |----------|--------------|--------------|
/// | Server   | 5%           | 512 MB       |
/// | Desktop  | 20%          | 2 GB         |
/// | Laptop   | 30%          | 2 GB         |
/// | Mobile   | 40%          | 1 GB         |
/// | Embedded | 10%          | 256 MB       |
#[derive(Debug, Clone, Copy, PartialEq, Eq, Structural)]
pub enum DeviceType {
    /// Dedicated server or headless machine.
    Server,
    /// Desktop workstation.
    Desktop,
    /// Laptop or portable computer.
    Laptop,
    /// Smartphone or tablet.
    Mobile,
    /// Single-board computer.
    Embedded,
}

/// The classification rules of [`DeviceType::detect`], first match wins:
/// under 2 GB of RAM is embedded; at most 4 cores with under 4 GB is mobile;
/// at least 16 cores with at least 32 GB is a server; anything else is a
/// desktop.
pub open spec fn classify(cpu_cores: u32, ram_total_mb: u64) -> DeviceType {
    if ram_total_mb < 2048 {
        DeviceType::Embedded
    } else if cpu_cores <= 4 && ram_total_mb < 4096 {
        DeviceType::Mobile
    } else if cpu_cores >= 16 && ram_total_mb >= 32768 {
        DeviceType::Server
    } else {
        DeviceType::Desktop
    }
}

impl DeviceType {
    /// Heuristic classification from the core count and the total RAM (MB).
    pub fn detect(cpu_cores: u32, ram_total_mb: u64) -> (r: DeviceType)
        ensures
            r == classify(cpu_cores, ram_total_mb),
    {
        if ram_total_mb < 2048 {
            DeviceType::Embedded
        } else if cpu_cores <= 4 && ram_total_mb < 4096 {
            DeviceType::Mobile
        } else if cpu_cores >= 16 && ram_total_mb >= 32768 {
            DeviceType::Server
        } else {
            DeviceType::Desktop
        }
    }
}

/// GPU information for compute-capable devices.
pub struct GpuProfile {
    /// GPU model name.
    pub name: String,
    /// Video RAM in megabytes.
    pub vram_mb: u64,
}

/// Static hardware profile of a node: the ceiling of what it can contribute.
pub struct NodeProfile {
    /// CPU architecture.
    pub arch: Architecture,
    /// Device class (decides the reservation margins).
    pub device_type: DeviceType,
    /// Number of logical CPU cores.
    pub cpu_cores: u32,
    /// Total physical RAM in megabytes.
    pub ram_total_mb: u64,
    /// GPU information, when one was detected.
    pub gpu: Option<GpuProfile>,
    /// Human-readable host name.
    pub hostname: String,
}

/// Bytes per megabyte, as the profile counts RAM.
pub const BYTES_PER_MB: u64 = 1048576;

impl NodeProfile {
    /// A profile with explicit values and no GPU.
    pub fn with_arch(
        arch: Architecture,
        device_type: DeviceType,
        cpu_cores: u32,
        ram_total_mb: u64,
        hostname: String,
    ) -> (r: NodeProfile)
        ensures
            r.arch == arch,
            r.device_type == device_type,
            r.cpu_cores == cpu_cores,
            r.ram_total_mb == ram_total_mb,
            r.gpu is None,
            r.hostname@ == hostname@,
    {
        NodeProfile { arch, device_type, cpu_cores, ram_total_mb, gpu: None, hostname }
    }

    /// Builds the profile of a machine from what the operating system reports:
    /// the number of logical CPUs, the total memory in bytes and the host name.
    /// RAM is counted in whole megabytes, the core count is kept in 32 bits,
    /// a missing host name reads "unknown", and the device class follows
    /// [`DeviceType::detect`].
    pub fn from_system(
        arch: Architecture,
        cpu_count: usize,
        total_memory_bytes: u64,
        host_name: Option<String>,
    ) -> (r: NodeProfile)
        ensures
            r.arch == arch,
            r.cpu_cores == cpu_count as u32,
            r.ram_total_mb == total_memory_bytes / BYTES_PER_MB,
            r.device_type == classify(r.cpu_cores, r.ram_total_mb),
            r.gpu is None,
            r.hostname@ == (match host_name {
                Some(h) => h@,
                None => "unknown"@,
            }),
    {
        let cpu_cores = cpu_count as u32;
        let ram_total_mb = total_memory_bytes / BYTES_PER_MB;
        let hostname = match host_name {
            Some(h) => h,
            None => String::from_str("unknown"),
        };
        let device_type = DeviceType::detect(cpu_cores, ram_total_mb);
        NodeProfile { arch, device_type, cpu_cores, ram_total_mb, gpu: None, hostname }
    }
}


/// The documented classification table: under 2 GB of RAM is embedded;
/// otherwise at most 4 cores with under 4 GB is mobile; at least 16 cores
/// with at least 32 GB is a server; anything else is a desktop.
pub proof fn lemma_device_table(cores: u32, ram: u64)
    ensures
        ram < 2048 ==> classify(cores, ram) == DeviceType::Embedded,
        2048 <= ram < 4096 && cores <= 4 ==> classify(cores, ram) == DeviceType::Mobile,
        ram >= 32768 && cores >= 16 ==> classify(cores, ram) == DeviceType::Server,
        ram >= 4096 && cores < 16 ==> classify(cores, ram) == DeviceType::Desktop,
        ram >= 2048 && cores > 4 && ram < 32768 ==> classify(cores, ram) == DeviceType::Desktop,
        ram >= 4096 && ram < 32768 ==> classify(cores, ram) == DeviceType::Desktop,
{
}

/// More RAM never makes a device look smaller: with the same cores, a device
/// classified as a server stays one with more RAM, and one that is not
/// embedded stays not embedded.
pub proof fn lemma_more_ram_not_smaller(cores: u32, ram: u64, more: u64)
    requires
        ram <= more,
    ensures
        classify(cores, ram) == DeviceType::Server ==> classify(cores, more) == DeviceType::Server,
        classify(cores, ram) != DeviceType::Embedded ==> classify(cores, more) != DeviceType::Embedded,
        classify(cores, more) == DeviceType::Embedded ==> classify(cores, ram) == DeviceType::Embedded,
{
}

} // verus!
