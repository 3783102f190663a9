use skeg_rigging::ids::{RecordId, TenantId};

#[test]
fn tenant_id_hex_display() {
    let id = TenantId::from_bytes([0xab; 16]);
    assert_eq!(id.to_string(), "abababababababababababababababab");
}

#[test]
fn record_id_eq_and_order() {
    assert!(RecordId(1) < RecordId(2));
    assert_eq!(RecordId(7), RecordId(7));
}

#[test]
fn zero_sentinel() {
    assert!(TenantId::ZERO().is_zero());
    assert!(!TenantId::from_bytes([1; 16]).is_zero());
}

#[test]
fn tenant_id_hex_is_lowercase_two_digits_per_byte() {
    let mut b = [0u8; 16];
    b[0] = 0x01;
    b[1] = 0xfe;
    b[15] = 0x10;
    let id = TenantId::from_bytes(b);
    assert_eq!(id.to_string(), "01fe0000000000000000000000000010");
    assert_eq!(TenantId::ZERO().to_string(), "0".repeat(32));
}

#[test]
fn tenant_id_bytes_round_trip() {
    let b = [7u8; 16];
    assert_eq!(*TenantId::from_bytes(b).as_bytes(), b);
    assert!(!TenantId::from_bytes({
        let mut z = [0u8; 16];
        z[9] = 1;
        z
    })
    .is_zero());
}

#[test]
fn record_id_decimal_and_get() {
    assert_eq!(RecordId(0).to_string(), "0");
    assert_eq!(RecordId(1234567890).to_string(), "1234567890");
    assert_eq!(RecordId(u64::MAX).to_string(), u64::MAX.to_string());
    assert_eq!(RecordId::from(42).get(), 42);
}
