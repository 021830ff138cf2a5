use p_clmm::error::ProgramError;
use p_clmm::util::token::{
    calculate_pre_fee_amount, calculate_transfer_fee, find_transfer_fee, parse_fee_entry, transfer_checked, transfer_data, TokenKind,
    TransferFee, ACCOUNT_TYPE_MINT, EXT_TYPE_TRANSFER_FEE_CONFIG, MINT_BASE_LEN, P_TOKEN_ID, SPL_TOKEN_ID,
    TFEE_ENTRY_LEN, TFEE_NEWER_OFFSET, TFEE_OLDER_OFFSET, TOKEN_2022_ID,
};

#[test]
fn fee_zero_bps_is_noop() {
    let f = TransferFee { epoch: 0, maximum_fee: 100, transfer_fee_basis_points: 0 };
    assert_eq!(calculate_transfer_fee(&f, 1_000_000), 0);
    assert_eq!(calculate_pre_fee_amount(&f, 1_000_000), Some(1_000_000));
}

#[test]
fn fee_capped_at_maximum() {
    let f = TransferFee { epoch: 0, maximum_fee: 50, transfer_fee_basis_points: 5_000 };
    assert_eq!(calculate_transfer_fee(&f, 1_000), 50);
}

#[test]
fn fee_roundtrip_within_bps_range() {
    let f = TransferFee { epoch: 0, maximum_fee: u64::MAX, transfer_fee_basis_points: 250 };
    for gross in [1_000u64, 1_000_000, 999_999, u32::MAX as u64] {
        let fee = calculate_transfer_fee(&f, gross);
        let net = gross - fee;
        let recovered = calculate_pre_fee_amount(&f, net).unwrap();
        assert!(recovered >= gross.saturating_sub(1) && recovered <= gross + 1);
    }
}

#[test]
fn find_fee_returns_none_for_classic_mint() {
    let fee = find_transfer_fee(&SPL_TOKEN_ID, &[0u8; 200], 100);
    assert!(fee.is_none());
}

#[test]
fn find_fee_returns_none_for_t22_mint_without_extension() {
    let mut data = [0u8; MINT_BASE_LEN + 1];
    data[MINT_BASE_LEN] = ACCOUNT_TYPE_MINT;
    let fee = find_transfer_fee(&TOKEN_2022_ID, &data, 100);
    assert!(fee.is_none());
}

#[test]
fn fee_basis_points_at_full_bps() {
    let f = TransferFee { epoch: 0, maximum_fee: u64::MAX, transfer_fee_basis_points: 10_000 };
    assert_eq!(calculate_transfer_fee(&f, 1_000), 1_000);
    assert!(calculate_pre_fee_amount(&f, 100).is_none());
}

#[test]
fn fee_at_9999_bps_inverse_finite() {
    let f = TransferFee { epoch: 0, maximum_fee: u64::MAX, transfer_fee_basis_points: 9_999 };
    let pre = calculate_pre_fee_amount(&f, 1).expect("should be Some");
    assert!(pre >= 10_000);
}

#[test]
fn token_kind_classifies_each_program() {
    assert_eq!(TokenKind::from_owner(&SPL_TOKEN_ID).unwrap(), TokenKind::SplClassic);
    assert_eq!(TokenKind::from_owner(&TOKEN_2022_ID).unwrap(), TokenKind::Token2022);
    assert_eq!(TokenKind::from_owner(&P_TOKEN_ID).unwrap(), TokenKind::PToken);
    assert!(TokenKind::from_owner(&[0u8; 32]).is_err());
}

#[test]
fn token_kind_program_id_roundtrip() {
    for kind in [TokenKind::SplClassic, TokenKind::Token2022, TokenKind::PToken] {
        let id = kind.program_id();
        let back = TokenKind::from_owner(&id).unwrap();
        assert_eq!(kind, back);
    }
}

#[test]
fn find_fee_walks_past_unrelated_extensions() {
    let total: usize = MINT_BASE_LEN + 1 + 4 + 8 + 4 + TFEE_NEWER_OFFSET + TFEE_ENTRY_LEN;
    let mut data = vec![0u8; total];
    data[MINT_BASE_LEN] = ACCOUNT_TYPE_MINT;
    let mut c = MINT_BASE_LEN + 1;
    data[c..c + 2].copy_from_slice(&99u16.to_le_bytes());
    data[c + 2..c + 4].copy_from_slice(&8u16.to_le_bytes());
    c += 4 + 8;
    data[c..c + 2].copy_from_slice(&EXT_TYPE_TRANSFER_FEE_CONFIG.to_le_bytes());
    data[c + 2..c + 4].copy_from_slice(&((TFEE_NEWER_OFFSET + TFEE_ENTRY_LEN) as u16).to_le_bytes());
    c += 4;
    data[c + TFEE_NEWER_OFFSET + 16..c + TFEE_NEWER_OFFSET + 18].copy_from_slice(&250u16.to_le_bytes());
    let fee = find_transfer_fee(&TOKEN_2022_ID, &data, 999).expect("should find fee");
    assert_eq!(fee.transfer_fee_basis_points, 250);
}

#[test]
fn find_fee_rejects_truncated_tlv() {
    let total: usize = MINT_BASE_LEN + 1 + 4 + 5;
    let mut data = vec![0u8; total];
    data[MINT_BASE_LEN] = ACCOUNT_TYPE_MINT;
    let c = MINT_BASE_LEN + 1;
    data[c..c + 2].copy_from_slice(&EXT_TYPE_TRANSFER_FEE_CONFIG.to_le_bytes());
    data[c + 2..c + 4].copy_from_slice(&999u16.to_le_bytes());
    assert!(find_transfer_fee(&TOKEN_2022_ID, &data, 0).is_none());
}

#[test]
fn fee_zero_amount_is_zero() {
    let f = TransferFee { epoch: 0, maximum_fee: u64::MAX, transfer_fee_basis_points: 500 };
    assert_eq!(calculate_transfer_fee(&f, 0), 0);
}

// ---------------------------------------------------------------------------

#[test]
fn program_ids_match_their_base58_names() {
    assert_eq!(SPL_TOKEN_ID, pinocchio_pubkey::from_str("TokenkegQfeZyiNwAJbNbGKPFXCWuBvf9Ss623VQ5DA"));
    assert_eq!(TOKEN_2022_ID, pinocchio_pubkey::from_str("TokenzQdBNbLqP5VEhdkAS6EPFLC1PHnBqCXEpPxuEb"));
    assert_eq!(P_TOKEN_ID, pinocchio_pubkey::from_str("pTokenrcXyfwwrHaitJwGsuMEcZZbywxK7DkAaKZTms"));
}

#[test]
fn transfer_fee_rounds_up() {
    let f = TransferFee { epoch: 0, maximum_fee: u64::MAX, transfer_fee_basis_points: 1 };
    // 1 * 1 / 10_000 rounds up to 1.
    assert_eq!(calculate_transfer_fee(&f, 1), 1);
    assert_eq!(calculate_transfer_fee(&f, 10_000), 1);
    assert_eq!(calculate_transfer_fee(&f, 10_001), 2);
}

#[test]
fn pre_fee_amount_exact_values() {
    let f = TransferFee { epoch: 0, maximum_fee: u64::MAX, transfer_fee_basis_points: 100 };
    // ceil(990 * 10_000 / 9_900) = 1_000
    assert_eq!(calculate_pre_fee_amount(&f, 990), Some(1_000));
    assert_eq!(calculate_pre_fee_amount(&f, u64::MAX), None);
}

#[test]
fn find_fee_picks_older_schedule_before_newer_epoch() {
    let total: usize = MINT_BASE_LEN + 1 + 4 + TFEE_NEWER_OFFSET + TFEE_ENTRY_LEN;
    let mut data = vec![0u8; total];
    data[MINT_BASE_LEN] = ACCOUNT_TYPE_MINT;
    let c = MINT_BASE_LEN + 1;
    data[c..c + 2].copy_from_slice(&EXT_TYPE_TRANSFER_FEE_CONFIG.to_le_bytes());
    data[c + 2..c + 4].copy_from_slice(&((TFEE_NEWER_OFFSET + TFEE_ENTRY_LEN) as u16).to_le_bytes());
    let body = c + 4;
    data[body + TFEE_OLDER_OFFSET..body + TFEE_OLDER_OFFSET + 8].copy_from_slice(&1u64.to_le_bytes());
    data[body + TFEE_OLDER_OFFSET + 8..body + TFEE_OLDER_OFFSET + 16].copy_from_slice(&77u64.to_le_bytes());
    data[body + TFEE_OLDER_OFFSET + 16..body + TFEE_OLDER_OFFSET + 18].copy_from_slice(&30u16.to_le_bytes());
    data[body + TFEE_NEWER_OFFSET..body + TFEE_NEWER_OFFSET + 8].copy_from_slice(&500u64.to_le_bytes());
    data[body + TFEE_NEWER_OFFSET + 16..body + TFEE_NEWER_OFFSET + 18].copy_from_slice(&60u16.to_le_bytes());
    let older = find_transfer_fee(&TOKEN_2022_ID, &data, 499).unwrap();
    assert_eq!(older.epoch, 1);
    assert_eq!(older.maximum_fee, 77);
    assert_eq!(older.transfer_fee_basis_points, 30);
    let newer = find_transfer_fee(&TOKEN_2022_ID, &data, 500).unwrap();
    assert_eq!(newer.epoch, 500);
    assert_eq!(newer.transfer_fee_basis_points, 60);
}

#[test]
fn find_fee_requires_mint_account_type() {
    let data = [0u8; MINT_BASE_LEN + 200];
    assert!(find_transfer_fee(&TOKEN_2022_ID, &data, 0).is_none());
}

#[test]
fn transfer_checked_encodes_amount_and_decimals() {
    let data = transfer_checked(TokenKind::Token2022, &TOKEN_2022_ID, 0x0102_0304_0506_0708, 6).unwrap();
    assert_eq!(data, [12, 8, 7, 6, 5, 4, 3, 2, 1, 6]);
}

#[test]
fn transfer_checked_rejects_other_program() {
    assert_eq!(
        transfer_checked(TokenKind::SplClassic, &TOKEN_2022_ID, 1, 6),
        Err(ProgramError::IncorrectProgramId)
    );
}

#[test]
fn transfer_data_encodes_amount() {
    assert_eq!(transfer_data(258), [3, 2, 1, 0, 0, 0, 0, 0, 0]);
}

#[test]
fn fee_entry_fields_are_little_endian() {
    let mut d = vec![0u8; 30];
    d[4..12].copy_from_slice(&0x0102_0304_0506_0708u64.to_le_bytes());
    d[12..20].copy_from_slice(&99u64.to_le_bytes());
    d[20..22].copy_from_slice(&0x0a0bu16.to_le_bytes());
    let f = parse_fee_entry(&d, 4);
    assert_eq!(f.epoch, 0x0102_0304_0506_0708);
    assert_eq!(f.maximum_fee, 99);
    assert_eq!(f.transfer_fee_basis_points, 0x0a0b);
}

#[test]
fn pre_fee_amount_is_least_that_leaves_net() {
    // 2.5%: sending 1_000 leaves 975 after a fee of 25, and sending 999
    // leaves only 974.
    let f = TransferFee { epoch: 0, maximum_fee: u64::MAX, transfer_fee_basis_points: 250 };
    let pre = calculate_pre_fee_amount(&f, 975).unwrap();
    assert_eq!(pre, 1_000);
    assert_eq!(pre - calculate_transfer_fee(&f, pre), 975);
    assert_eq!(999 - calculate_transfer_fee(&f, 999), 974);
}
