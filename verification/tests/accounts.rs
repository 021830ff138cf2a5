use p_clmm::discriminator::{decode_instruction, InstructionKind, CREATE_POOL, DECREASE_LIQUIDITY_V2, INCREASE_LIQUIDITY_V2, SWAP, SWAP_V2};
use p_clmm::error::ProgramError;
use p_clmm::instructions::swap::{bind_swap_accounts, POOL_AMM_CONFIG_OFFSET, POOL_OBSERVATION_KEY_OFFSET, TICK_ARRAY_POOL_ID_OFFSET};
use p_clmm::instructions::{create_pool, decrease_liquidity, increase_liquidity, swap_v2};
use p_clmm::states::config::AmmConfig;
use p_clmm::states::oracle::ObservationState;
use p_clmm::states::pool::PoolState;
use p_clmm::states::tick_array::TickArrayState;
use p_clmm::util::account_load::{load, load_init, load_mut, validate, AccountInput};

const PROGRAM: [u8; 32] = [42; 32];

fn stored(tag: [u8; 8], len: usize) -> Vec<u8> {
    let mut d = vec![0u8; len];
    d[..8].copy_from_slice(&tag);
    d
}

fn input(key: [u8; 32], owner: [u8; 32], is_signer: bool, is_writable: bool, data: &[u8]) -> AccountInput<'_> {
    AccountInput { key, owner, is_signer, is_writable, data }
}

#[test]
fn validate_accepts_a_tagged_account() {
    let d = stored(AmmConfig::DISCRIMINATOR, AmmConfig::LEN);
    let a = input([1; 32], PROGRAM, false, false, &d);
    assert_eq!(load::<AmmConfig>(&a, &PROGRAM), Ok(()));
    assert_eq!(validate::<AmmConfig>(&a, &PROGRAM, false), Ok(()));
}

#[test]
fn validate_reports_each_failure() {
    let d = stored(AmmConfig::DISCRIMINATOR, AmmConfig::LEN);
    let a = input([1; 32], [0; 32], false, true, &d);
    assert_eq!(load::<AmmConfig>(&a, &PROGRAM), Err(ProgramError::IncorrectProgramId));
    let a = input([1; 32], PROGRAM, false, false, &d);
    assert_eq!(load_mut::<AmmConfig>(&a, &PROGRAM), Err(ProgramError::InvalidAccountData));
    let short = stored(AmmConfig::DISCRIMINATOR, AmmConfig::LEN - 1);
    let a = input([1; 32], PROGRAM, false, true, &short);
    assert_eq!(load::<AmmConfig>(&a, &PROGRAM), Err(ProgramError::AccountDataTooSmall));
    let other = stored(PoolState::DISCRIMINATOR, AmmConfig::LEN);
    let a = input([1; 32], PROGRAM, false, true, &other);
    assert_eq!(load::<AmmConfig>(&a, &PROGRAM), Err(ProgramError::InvalidAccountData));
}

#[test]
fn load_init_tags_fresh_accounts_only() {
    let fresh = vec![0u8; ObservationState::LEN];
    let a = input([1; 32], PROGRAM, false, true, &fresh);
    assert_eq!(load_init::<ObservationState>(&a, &PROGRAM), Ok(ObservationState::DISCRIMINATOR));
    let used = stored(ObservationState::DISCRIMINATOR, ObservationState::LEN);
    let a = input([1; 32], PROGRAM, false, true, &used);
    assert_eq!(load_init::<ObservationState>(&a, &PROGRAM), Err(ProgramError::AccountAlreadyInitialized));
    let a = input([1; 32], PROGRAM, false, false, &fresh);
    assert_eq!(load_init::<ObservationState>(&a, &PROGRAM), Err(ProgramError::InvalidAccountData));
}

struct Fixture {
    datas: Vec<Vec<u8>>,
    keys: Vec<[u8; 32]>,
}

const POOL_KEY: [u8; 32] = [20; 32];
const CONFIG_KEY: [u8; 32] = [21; 32];
const OBS_KEY: [u8; 32] = [22; 32];

fn fixture(arrays: usize) -> Fixture {
    let mut pool = stored(PoolState::DISCRIMINATOR, PoolState::LEN);
    pool[POOL_AMM_CONFIG_OFFSET..POOL_AMM_CONFIG_OFFSET + 32].copy_from_slice(&CONFIG_KEY);
    pool[POOL_OBSERVATION_KEY_OFFSET..POOL_OBSERVATION_KEY_OFFSET + 32].copy_from_slice(&OBS_KEY);
    let mut datas = vec![
        vec![],
        stored(AmmConfig::DISCRIMINATOR, AmmConfig::LEN),
        pool,
        vec![],
        vec![],
        vec![],
        vec![],
        stored(ObservationState::DISCRIMINATOR, ObservationState::LEN),
        vec![],
    ];
    let mut keys = vec![[30; 32], CONFIG_KEY, POOL_KEY, [31; 32], [32; 32], [33; 32], [34; 32], OBS_KEY, [35; 32]];
    for i in 0..arrays {
        let mut a = stored(TickArrayState::DISCRIMINATOR, TickArrayState::LEN);
        a[TICK_ARRAY_POOL_ID_OFFSET..TICK_ARRAY_POOL_ID_OFFSET + 32].copy_from_slice(&POOL_KEY);
        datas.push(a);
        keys.push([40 + i as u8; 32]);
    }
    Fixture { datas, keys }
}

fn inputs(f: &Fixture) -> Vec<AccountInput<'_>> {
    f.datas
        .iter()
        .zip(f.keys.iter())
        .enumerate()
        .map(|(i, (d, k))| input(*k, PROGRAM, i == 0, i != 1 && i != 8, d))
        .collect()
}

#[test]
fn bind_counts_tick_arrays() {
    let f = fixture(3);
    assert_eq!(bind_swap_accounts(&inputs(&f), &PROGRAM), Ok(3));
}

#[test]
fn bind_needs_enough_accounts_and_a_signer() {
    let f = fixture(0);
    assert_eq!(bind_swap_accounts(&inputs(&f), &PROGRAM), Err(ProgramError::NotEnoughAccountKeys));
    let f = fixture(1);
    let mut accs = inputs(&f);
    accs[0].is_signer = false;
    assert_eq!(bind_swap_accounts(&accs, &PROGRAM), Err(ProgramError::MissingRequiredSignature));
}

#[test]
fn bind_checks_config_and_observation_keys() {
    let f = fixture(1);
    let mut accs = inputs(&f);
    accs[1].key = [99; 32];
    assert_eq!(bind_swap_accounts(&accs, &PROGRAM), Err(ProgramError::InvalidArgument));
    let mut accs = inputs(&f);
    accs[7].key = [99; 32];
    assert_eq!(bind_swap_accounts(&accs, &PROGRAM), Err(ProgramError::InvalidArgument));
}

#[test]
fn bind_checks_writability() {
    let f = fixture(1);
    let mut accs = inputs(&f);
    accs[5].is_writable = false;
    assert_eq!(bind_swap_accounts(&accs, &PROGRAM), Err(ProgramError::InvalidAccountData));
    let mut accs = inputs(&f);
    accs[4].is_writable = false;
    assert_eq!(bind_swap_accounts(&accs, &PROGRAM), Err(ProgramError::InvalidAccountData));
    let mut accs = inputs(&f);
    accs[2].is_writable = false;
    assert_eq!(bind_swap_accounts(&accs, &PROGRAM), Err(ProgramError::InvalidAccountData));
}

#[test]
fn bind_checks_tick_arrays() {
    let mut f = fixture(2);
    f.datas[10][TICK_ARRAY_POOL_ID_OFFSET] = 0;
    assert_eq!(bind_swap_accounts(&inputs(&f), &PROGRAM), Err(ProgramError::InvalidArgument));
    let f = fixture(9);
    assert_eq!(bind_swap_accounts(&inputs(&f), &PROGRAM), Err(ProgramError::InvalidArgument));
    let f = fixture(8);
    assert_eq!(bind_swap_accounts(&inputs(&f), &PROGRAM), Ok(8));
    let mut f = fixture(1);
    f.datas[9][0] ^= 1;
    assert_eq!(bind_swap_accounts(&inputs(&f), &PROGRAM), Err(ProgramError::InvalidAccountData));
}

fn with_tag(tag: [u8; 8], rest: &[u8]) -> Vec<u8> {
    let mut d = tag.to_vec();
    d.extend_from_slice(rest);
    d
}

#[test]
fn instruction_tags_select_handlers() {
    assert_eq!(decode_instruction(&with_tag(SWAP, &[1, 2])), Ok(InstructionKind::Swap));
    assert_eq!(decode_instruction(&with_tag(SWAP_V2, &[])), Ok(InstructionKind::SwapV2));
    assert_eq!(decode_instruction(&with_tag(CREATE_POOL, &[])), Ok(InstructionKind::CreatePool));
    assert_eq!(decode_instruction(&with_tag(INCREASE_LIQUIDITY_V2, &[])), Ok(InstructionKind::IncreaseLiquidityV2));
    assert_eq!(decode_instruction(&with_tag(DECREASE_LIQUIDITY_V2, &[])), Ok(InstructionKind::DecreaseLiquidityV2));
    assert_eq!(decode_instruction(&[0u8; 8]), Err(ProgramError::InvalidInstructionData));
    assert_eq!(decode_instruction(&SWAP[..7]), Err(ProgramError::InvalidInstructionData));
}

#[test]
fn unsupported_instructions_fail() {
    assert_eq!(swap_v2::process(12, &[0u8; 33]), Err(ProgramError::NotEnoughAccountKeys));
    assert_eq!(swap_v2::process(13, &[0u8; 33]), Err(ProgramError::InvalidInstructionData));
    assert_eq!(create_pool::process(12, &[0u8; 24]), Err(ProgramError::NotEnoughAccountKeys));
    assert_eq!(create_pool::process(13, &[0u8; 24]), Err(ProgramError::InvalidInstructionData));
    assert_eq!(increase_liquidity::process(14, &[0u8; 33]), Err(ProgramError::NotEnoughAccountKeys));
    assert_eq!(increase_liquidity::process(15, &[0u8; 33]), Err(ProgramError::InvalidInstructionData));
    assert_eq!(decrease_liquidity::process(17, &[0u8; 32]), Err(ProgramError::NotEnoughAccountKeys));
    assert_eq!(decrease_liquidity::process(18, &[0u8; 32]), Err(ProgramError::InvalidInstructionData));
}
