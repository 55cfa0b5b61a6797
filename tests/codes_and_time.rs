use haptic_db::codes::{ControlAlgorithm, Device, Gender, Handedness, OptimisationParameter};
use haptic_db::time_source::{checked_add_nanos, from_elapsed_micros, TimeSource, Timestamp};

#[test]
fn algorithm_codes_round_trip() {
    for c in 0u8..5 {
        assert_eq!(ControlAlgorithm::from_code(c).unwrap().code(), c);
    }
    assert_eq!(ControlAlgorithm::from_code(2), Some(ControlAlgorithm::ISS));
    assert_eq!(ControlAlgorithm::from_code(5), None);
    assert_eq!(ControlAlgorithm::MMT.code(), 4);
}

#[test]
fn two_valued_codes() {
    assert_eq!(Device::from_code(1), Some(Device::Slave));
    assert_eq!(Device::from_code(2), None);
    assert_eq!(Device::Master.code(), 0);
    assert_eq!(Gender::from_code(1), Some(Gender::Female));
    assert_eq!(Gender::from_code(9), None);
    assert_eq!(Handedness::from_code(0), Some(Handedness::Right));
    assert_eq!(Handedness::Left.code(), 1);
    assert_eq!(OptimisationParameter::from_code(1), Some(OptimisationParameter::Delay));
    assert_eq!(OptimisationParameter::from_code(255), None);
}

#[test]
fn default_algorithm_is_no_control() {
    assert_eq!(ControlAlgorithm::default(), ControlAlgorithm::NoControl);
}

#[test]
fn adding_nanoseconds_carries_into_seconds() {
    let t = Timestamp { sec: 1, nsec: 900_000_000 };
    assert_eq!(checked_add_nanos(t, 200_000_000), Some(Timestamp { sec: 2, nsec: 100_000_000 }));
    assert_eq!(
        checked_add_nanos(t, 3_000_000_001),
        Some(Timestamp { sec: 4, nsec: 900_000_001 })
    );
    assert_eq!(checked_add_nanos(Timestamp { sec: i64::MAX, nsec: 999_999_999 }, 1), None);
}

#[test]
fn stamps_follow_the_counter() {
    let src = TimeSource::from_parts(Timestamp { sec: 100, nsec: 500 }, 1_000);
    assert_eq!(src.stamp_at(1_000), Some(Timestamp { sec: 100, nsec: 500 }));
    assert_eq!(src.stamp_at(2_000_001_000), Some(Timestamp { sec: 102, nsec: 500 }));
    assert_eq!(src.stamp_at(10), Some(Timestamp { sec: 100, nsec: 500 }));
}

#[test]
fn caller_supplied_microseconds() {
    let epoch = Timestamp { sec: 0, nsec: 0 };
    assert_eq!(from_elapsed_micros(epoch, 1_500_000), Some(Timestamp { sec: 1, nsec: 500_000_000 }));
    assert_eq!(from_elapsed_micros(epoch, u64::MAX), None);
}

#[test]
fn live_time_source_stamps_after_its_start() {
    let src = TimeSource::new();
    assert!(src.start.sec > 1_500_000_000);
    assert!((0..1_000_000_000).contains(&src.start.nsec));
    let a = src.timestamp().unwrap();
    let b = src.timestamp().unwrap();
    assert!((a.sec, a.nsec) >= (src.start.sec, src.start.nsec));
    assert!((b.sec, b.nsec) >= (a.sec, a.nsec));
}
