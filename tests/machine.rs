use lilith_kernel::error::BootError;
use lilith_kernel::machine::verify_hardware_compatibility;

const RV64: u64 = 2 << 62;
const IMAS: u64 = (1 << 8) | (1 << 12) | (1 << 0) | (1 << 18);

#[test]
fn rv64_with_required_extensions_is_accepted() {
    let c = verify_hardware_compatibility(RV64 | IMAS | (1 << 2) | (1 << 30)).unwrap();
    assert_eq!(c.extensions, IMAS | (1 << 2));
    assert_eq!(c.core_count, 1);
    assert!(!c.vector_support);
    let v = verify_hardware_compatibility(RV64 | IMAS | (1 << 21)).unwrap();
    assert!(v.vector_support);
}

#[test]
fn missing_extension_or_width_is_incompatible() {
    assert_eq!(verify_hardware_compatibility(RV64 | (IMAS & !1)), Err(BootError::HardwareIncompatible));
    assert_eq!(verify_hardware_compatibility((1 << 62) | IMAS), Err(BootError::HardwareIncompatible));
    assert_eq!(verify_hardware_compatibility(0), Err(BootError::HardwareIncompatible));
}
