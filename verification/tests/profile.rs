use neural_swarm_ai::compute::profile::{Architecture, DeviceType, NodeProfile};

#[test]
fn test_detect_embedded() {
    assert_eq!(DeviceType::detect(4, 1024), DeviceType::Embedded);
}

#[test]
fn test_detect_mobile() {
    assert_eq!(DeviceType::detect(4, 3072), DeviceType::Mobile);
}

#[test]
fn test_detect_desktop() {
    assert_eq!(DeviceType::detect(8, 16384), DeviceType::Desktop);
}

#[test]
fn test_detect_server() {
    assert_eq!(DeviceType::detect(32, 65536), DeviceType::Server);
}

#[test]
fn detect_boundaries() {
    // exactly 2 GB is no longer embedded
    assert_eq!(DeviceType::detect(4, 2048), DeviceType::Mobile);
    // five cores with little RAM is a desktop
    assert_eq!(DeviceType::detect(5, 3072), DeviceType::Desktop);
    // a server needs both many cores and much RAM
    assert_eq!(DeviceType::detect(16, 32767), DeviceType::Desktop);
    assert_eq!(DeviceType::detect(16, 32768), DeviceType::Server);
    assert_eq!(DeviceType::detect(15, 65536), DeviceType::Desktop);
}

#[test]
fn profile_with_explicit_values() {
    let profile = NodeProfile::with_arch(
        Architecture::Aarch64,
        DeviceType::Laptop,
        10,
        16384,
        "my-mac".to_string(),
    );
    assert_eq!(profile.arch, Architecture::Aarch64);
    assert_eq!(profile.device_type, DeviceType::Laptop);
    assert_eq!(profile.cpu_cores, 10);
    assert_eq!(profile.ram_total_mb, 16384);
    assert!(profile.gpu.is_none());
    assert_eq!(profile.hostname, "my-mac");
}

#[test]
fn profile_from_system_readings() {
    let profile = NodeProfile::from_system(
        Architecture::X86_64,
        32,
        64 * 1024 * 1024 * 1024,
        Some("rack-7".to_string()),
    );
    assert_eq!(profile.cpu_cores, 32);
    assert_eq!(profile.ram_total_mb, 65536);
    assert_eq!(profile.device_type, DeviceType::Server);
    assert_eq!(profile.hostname, "rack-7");

    let unnamed = NodeProfile::from_system(Architecture::Other, 4, 1024 * 1024 * 1024 + 5, None);
    assert_eq!(unnamed.ram_total_mb, 1024);
    assert_eq!(unnamed.device_type, DeviceType::Embedded);
    assert_eq!(unnamed.hostname, "unknown");
}
