use neural_swarm_ai::compute::binary32;
use neural_swarm_ai::compute::capacity::{EffectiveCapacity, ResourceReservation};
use neural_swarm_ai::compute::profile::DeviceType;
use neural_swarm_ai::compute::status::{NodeStatus, ThermalState};

#[test]
fn test_reservation_defaults() {
    let server = ResourceReservation::for_device(&DeviceType::Server);
    let laptop = ResourceReservation::for_device(&DeviceType::Laptop);

    // Server should reserve less than laptop
    assert!(f32::from_bits(server.cpu_reserved) < f32::from_bits(laptop.cpu_reserved));
    assert!(server.ram_reserved_mb < laptop.ram_reserved_mb);
}

#[test]
fn test_custom_reservation_clamped() {
    let r = ResourceReservation::custom(1.5f32.to_bits(), 1024);
    assert_eq!(f32::from_bits(r.cpu_reserved), 0.95); // Clamped to max 95%
}

#[test]
fn test_zero_capacity() {
    let cap = EffectiveCapacity::zero();
    assert_eq!(f32::from_bits(cap.composite), 0.0);
    assert_eq!(f32::from_bits(cap.cpu_score), 0.0);
    assert_eq!(cap.ram_available_mb, 0);
}

#[test]
fn test_thermal_penalties() {
    assert_eq!(f32::from_bits(ThermalState::Nominal.penalty_factor()), 1.0);
    assert_eq!(f32::from_bits(ThermalState::Critical.penalty_factor()), 0.0);
    assert!(
        f32::from_bits(ThermalState::Warm.penalty_factor())
            > f32::from_bits(ThermalState::Throttling.penalty_factor())
    );
}

#[test]
fn default_reservation_table() {
    let table = [
        (DeviceType::Server, 0.05f32, 512u64),
        (DeviceType::Desktop, 0.20, 2048),
        (DeviceType::Laptop, 0.30, 2048),
        (DeviceType::Mobile, 0.40, 1024),
        (DeviceType::Embedded, 0.10, 256),
    ];
    for (device, cpu, ram) in table {
        let r = ResourceReservation::for_device(&device);
        assert_eq!(f32::from_bits(r.cpu_reserved), cpu);
        assert_eq!(r.ram_reserved_mb, ram);
    }
    assert_eq!(f32::from_bits(ThermalState::Warm.penalty_factor()), 0.85);
    assert_eq!(f32::from_bits(ThermalState::Throttling.penalty_factor()), 0.4);
}

#[test]
fn custom_reservation_clamping_cases() {
    let clamp = |x: f32| f32::from_bits(ResourceReservation::custom(x.to_bits(), 0).cpu_reserved);
    assert_eq!(clamp(-0.5), 0.0);
    assert_eq!(clamp(0.5), 0.5);
    assert_eq!(clamp(0.95), 0.95);
    assert_eq!(clamp(f32::INFINITY), 0.95);
    assert!(clamp(f32::NAN).is_nan());
    assert_eq!(clamp(-0.0).to_bits(), (-0.0f32).to_bits());
    // the same as the standard clamp
    for x in [-3.0f32, -0.0, 0.0, 0.1, 0.94, 0.96, 12.0] {
        assert_eq!(clamp(x).to_bits(), x.clamp(0.0, 0.95).to_bits());
    }
}

#[test]
fn binary32_comparisons_match_ieee() {
    let values = [
        -f32::INFINITY,
        -2.5,
        -1.0,
        -0.0,
        0.0,
        f32::MIN_POSITIVE,
        0.1,
        0.15,
        1.0,
        f32::INFINITY,
        f32::NAN,
    ];
    for a in values {
        for b in values {
            assert_eq!(binary32::lt(a.to_bits(), b.to_bits()), a < b, "{a} < {b}");
            assert_eq!(binary32::le(a.to_bits(), b.to_bits()), a <= b, "{a} <= {b}");
            assert_eq!(binary32::eq(a.to_bits(), b.to_bits()), a == b, "{a} == {b}");
            if !a.is_nan() && !b.is_nan() {
                assert_eq!(
                    binary32::rank_of(a.to_bits()) < binary32::rank_of(b.to_bits()),
                    a < b
                );
            }
        }
    }
}

#[test]
fn status_unknown_and_equality() {
    let s = NodeStatus::unknown();
    assert_eq!(f32::from_bits(s.cpu_usage), 0.0);
    assert_eq!(s.ram_available_mb, 0);
    assert_eq!(s.thermal, ThermalState::Nominal);
    assert!(s.measured_at.is_none());

    let mut other = NodeStatus::unknown();
    other.cpu_usage = (-0.0f32).to_bits();
    other.measured_at = Some(std::time::Instant::now());
    // -0.0 equals 0.0 and the measurement time is not compared
    assert!(s == other);
    other.ram_used_mb = 1;
    assert!(s != other);
    let mut nan = NodeStatus::unknown();
    nan.cpu_usage = f32::NAN.to_bits();
    let mut nan2 = NodeStatus::unknown();
    nan2.cpu_usage = f32::NAN.to_bits();
    // NaN usage equals nothing, not even itself
    assert!(nan != nan2);
}
