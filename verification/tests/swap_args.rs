use p_clmm::instructions::swap::SwapArgs;

fn pack(amount: u64, threshold: u64, limit: u128, base_in: bool) -> [u8; 33] {
    let mut buf = [0u8; 33];
    buf[0..8].copy_from_slice(&amount.to_le_bytes());
    buf[8..16].copy_from_slice(&threshold.to_le_bytes());
    buf[16..32].copy_from_slice(&limit.to_le_bytes());
    buf[32] = base_in as u8;
    buf
}

#[test]
fn roundtrip_basic() {
    let buf = pack(1_000, 500, 1u128 << 64, true);
    let args = SwapArgs::try_from_bytes(&buf).unwrap();
    assert_eq!(args.amount, 1_000);
    assert_eq!(args.other_amount_threshold, 500);
    assert_eq!(args.sqrt_price_limit_x64, 1u128 << 64);
    assert!(args.is_base_input);
}

#[test]
fn rejects_short_buffer() {
    let buf = [0u8; 32];
    assert!(SwapArgs::try_from_bytes(&buf).is_err());
}

#[test]
fn accepts_extra_bytes() {
    let mut buf = [0u8; 64];
    buf[0..8].copy_from_slice(&42u64.to_le_bytes());
    let args = SwapArgs::try_from_bytes(&buf).unwrap();
    assert_eq!(args.amount, 42);
}

#[test]
fn is_base_input_non_zero_byte() {
    let buf = pack(1, 1, 1, false);
    assert!(!SwapArgs::try_from_bytes(&buf).unwrap().is_base_input);
    let mut buf = pack(1, 1, 1, true);
    buf[32] = 7;
    assert!(SwapArgs::try_from_bytes(&buf).unwrap().is_base_input);
}

#[test]
fn extreme_values_roundtrip() {
    let buf = pack(u64::MAX, u64::MAX, u128::MAX, true);
    let args = SwapArgs::try_from_bytes(&buf).unwrap();
    assert_eq!(args.amount, u64::MAX);
    assert_eq!(args.other_amount_threshold, u64::MAX);
    assert_eq!(args.sqrt_price_limit_x64, u128::MAX);
}
