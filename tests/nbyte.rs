use yushi_core::{Storage, Unit};

const KB: u64 = 1 << 10;
const MB: u64 = 1 << 20;
const GB: u64 = 1 << 30;
const TB: u64 = 1 << 40;
const PB: u64 = 1 << 50;

#[test]
fn test_from_bytes() {
    // (bytes, quotient, remainder, unit)
    let cases: &[(u64, u64, u64, Unit)] = &[
        (0, 0, 0, Unit::B),
        (1, 1, 0, Unit::B),
        (512, 512, 0, Unit::B),
        (1023, 1023, 0, Unit::B),
        (KB, 1, 0, Unit::KB),
        (MB, 1, 0, Unit::MB),
        (GB, 1, 0, Unit::GB),
        (TB, 1, 0, Unit::TB),
        (PB, 1, 0, Unit::PB),
        (1536, 1, 512, Unit::KB),
        (MB + 512, 1, 512, Unit::MB),
        (3 * MB + 256, 3, 256, Unit::MB),
        (5 * GB + MB, 5, MB, Unit::GB),
        (MB - 1, 1023, 1023, Unit::KB),
        (10 * PB, 10, 0, Unit::PB),
        (100 * PB + 512, 100, 512, Unit::PB),
    ];
    for &(bytes, q, r, unit) in cases {
        assert_eq!(
            Storage::from_bytes(bytes),
            Storage::new(q, r, unit),
            "from_bytes({bytes})"
        );
    }
}

#[test]
fn test_to_bytes() {
    // (quotient, remainder, unit, expected_bytes)
    let cases: &[(u64, u64, Unit, u64)] = &[
        (0, 0, Unit::B, 0),
        (1, 0, Unit::B, 1),
        (1023, 0, Unit::B, 1023),
        (1, 0, Unit::KB, KB),
        (1, 0, Unit::MB, MB),
        (1, 0, Unit::GB, GB),
        (1, 0, Unit::TB, TB),
        (1, 0, Unit::PB, PB),
        (1, 512, Unit::KB, 1536),
        (1, 512, Unit::MB, MB + 512),
        (3, 256, Unit::MB, 3 * MB + 256),
        (5, MB, Unit::GB, 5 * GB + MB),
        (100, 512, Unit::PB, 100 * PB + 512),
        (1023, 1023, Unit::KB, 1023 * KB + 1023),
        (10, 0, Unit::TB, 10 * TB),
    ];
    for &(q, r, unit, expected) in cases {
        assert_eq!(Storage::new(q, r, unit).to_bytes(), expected);
    }
}

#[test]
fn test_round_trip() {
    let cases = [
        0,
        1,
        512,
        1023,
        KB,
        KB + 1,
        1536,
        MB - 1,
        MB,
        MB + 512,
        3 * MB + 256,
        GB - 1,
        GB,
        5 * GB + MB,
        TB,
        10 * PB,
        100 * PB + 512,
    ];
    for bytes in cases {
        assert_eq!(
            Storage::from_bytes(bytes).to_bytes(),
            bytes,
            "round trip {bytes}"
        );
    }
}

#[test]
fn test_boundary_values() {
    // (bytes, quotient, remainder, unit)
    let cases: &[(u64, u64, u64, Unit)] = &[
        (KB - 1, 1023, 0, Unit::B),
        (KB, 1, 0, Unit::KB),
        (KB + 1, 1, 1, Unit::KB),
        (MB - 1, 1023, 1023, Unit::KB),
        (MB, 1, 0, Unit::MB),
        (MB + 1, 1, 1, Unit::MB),
        (GB - 1, 1023, MB - 1, Unit::MB),
        (GB, 1, 0, Unit::GB),
        (GB + 1, 1, 1, Unit::GB),
        (TB, 1, 0, Unit::TB),
        (PB, 1, 0, Unit::PB),
    ];
    for &(bytes, q, r, unit) in cases {
        assert_eq!(
            Storage::from_bytes(bytes),
            Storage::new(q, r, unit),
            "boundary {bytes}"
        );
    }
}

#[test]
fn round_trip_at_the_largest_value() {
    assert_eq!(Storage::from_bytes(u64::MAX).to_bytes(), u64::MAX);
    assert_eq!(Storage::from_bytes(u64::MAX).unit(), Unit::PB);
}

#[test]
fn storage_accessors_and_sum() {
    let s = Storage::from_bytes(3 * MB + 256);
    assert_eq!(s.quotient(), 3);
    assert_eq!(s.remainder(), 256);
    assert_eq!(s.unit(), Unit::MB);
    let sum = s.add(&Storage::from_bytes(MB - 256));
    assert_eq!(sum, Storage::new(4, 0, Unit::MB));
}

#[test]
fn unit_labels() {
    assert_eq!(Unit::B.as_str(), "B");
    assert_eq!(Unit::KB.as_str(), "KB");
    assert_eq!(Unit::MB.as_str(), "MB");
    assert_eq!(Unit::GB.as_str(), "GB");
    assert_eq!(Unit::TB.as_str(), "TB");
    assert_eq!(Unit::PB.as_str(), "PB");
    assert_eq!(Unit::GB.size(), GB);
}

#[test]
fn byte_unit_ignores_remainder() {
    assert_eq!(Storage::new(5, 3, Unit::B).to_bytes(), 5);
}
