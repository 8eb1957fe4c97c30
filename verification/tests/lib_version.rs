use alec::testdata::Industry;
use alec::{DEFAULT_SCALE_FACTOR, MAX_PAYLOAD_SIZE, PROTOCOL_VERSION, VERSION};

#[test]
fn lib_test_version() {
    assert!(!VERSION.is_empty());
}

#[test]
fn library_constants() {
    assert_eq!(PROTOCOL_VERSION, 1);
    assert_eq!(MAX_PAYLOAD_SIZE, 65535);
    assert_eq!(DEFAULT_SCALE_FACTOR, 100);
}

#[test]
fn industry_names() {
    assert_eq!(Industry::Agriculture.as_str(), "agriculture");
    assert_eq!(Industry::SmartCity.as_str(), "smart_city");
    assert_eq!(Industry::Energy.display_name(), "Energy (Smart Grid)");
    assert_eq!(Industry::Logistics.display_name(), "Logistics (Cold Chain)");
}
