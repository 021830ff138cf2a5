use p_clmm::error::{ErrorCode, ProgramError};
use p_clmm::libraries::big_num::{U128, U256, U512};
use p_clmm::libraries::full_math::{Downcast256, Downcast512, MulDiv, Upcast256, Upcast512};
use p_clmm::libraries::liquidity_math::{add_delta, get_delta_amount_0_unsigned, get_delta_amount_1_unsigned};
use p_clmm::libraries::sqrt_price_math::{get_next_sqrt_price_from_input, get_next_sqrt_price_from_output};
use p_clmm::libraries::swap_math::{calculate_amount_in_range, compute_swap, SwapComputationResult};
use p_clmm::libraries::tick_math::{
    get_sqrt_price_at_tick, get_tick_at_sqrt_price, MAX_SQRT_PRICE_X64, MAX_TICK, MIN_SQRT_PRICE_X64, MIN_TICK,
};

const Q64: u128 = 1 << 64;
const AT_100: u128 = 18_539_204_128_674_375_874;
const AT_MINUS_100: u128 = 18_354_745_142_194_513_203;

fn custom(code: ErrorCode) -> ProgramError {
    ProgramError::Custom(code.code())
}

#[test]
fn mul_div_on_u64_rounds_as_asked() {
    assert_eq!(7u64.mul_div_floor(3, 2), Some(10));
    assert_eq!(7u64.mul_div_ceil(3, 2), Some(11));
    assert_eq!(6u64.mul_div_ceil(4, 3), Some(8));
    assert_eq!(1u64.mul_div_floor(1, 0), None);
    assert_eq!(u64::MAX.mul_div_floor(2, 1), None);
    assert_eq!(u64::MAX.mul_div_floor(u64::MAX, u64::MAX), Some(u64::MAX));
    assert_eq!(5u64.to_underflow_u64(), 5);
}

#[test]
fn mul_div_on_wide_integers() {
    // 2^64 * 3 / 2: goes through the multiplication and division of the
    // wide integers, which must not hand back their argument.
    let r = U128::from_u128(Q64).mul_div_floor(U128::from_u64(3), U128::from_u64(2)).unwrap();
    assert_eq!(r.as_u128(), 3 * Q64 / 2);
    let r = U128::from_u64(10).mul_div_ceil(U128::from_u64(1), U128::from_u64(3)).unwrap();
    assert_eq!(r.as_u128(), 4);
    assert!(U128::from_u128(u128::MAX).mul_div_floor(U128::from_u64(2), U128::from_u64(1)).is_none());
    let r = U256::from_u128(u128::MAX).mul_div_floor(U256::from_u128(u128::MAX), U256::from_u128(u128::MAX)).unwrap();
    assert_eq!(U256::as_u128(&r), u128::MAX);
    let r = U256::from_u128(u128::MAX).mul_div_ceil(U256::from_u64(2), U256::from_u64(4)).unwrap();
    assert_eq!(U256::as_u128(&r), u128::MAX / 2 + 1);
    assert_eq!(U256::from_u64(9).to_underflow_u64(), 9);
    assert_eq!(U256::from_u128(u128::MAX).to_underflow_u64(), 0);
    assert_eq!(U128::from_u128(Q64).to_underflow_u64(), 0);
}

#[test]
fn widening_and_narrowing_keep_values() {
    let x = U128::from_u128(123_456_789_012_345_678_901_234_567);
    let w: U256 = x.as_u256();
    assert_eq!(U256::as_u128(&w), 123_456_789_012_345_678_901_234_567);
    let n: U128 = Downcast256::as_u128(w);
    assert_eq!(n.as_u128(), 123_456_789_012_345_678_901_234_567);
    let big: U512 = w.as_u512();
    let back: U256 = big.as_u256();
    assert_eq!(U256::as_u128(&back), 123_456_789_012_345_678_901_234_567);
}

#[test]
fn sqrt_price_of_ticks() {
    assert_eq!(get_sqrt_price_at_tick(0), Ok(Q64));
    assert_eq!(get_sqrt_price_at_tick(100), Ok(AT_100));
    assert_eq!(get_sqrt_price_at_tick(-100), Ok(AT_MINUS_100));
    assert_eq!(get_sqrt_price_at_tick(MIN_TICK), Ok(MIN_SQRT_PRICE_X64));
    assert_eq!(get_sqrt_price_at_tick(MAX_TICK), Ok(MAX_SQRT_PRICE_X64));
    assert_eq!(get_sqrt_price_at_tick(MAX_TICK + 1), Err(custom(ErrorCode::TickUpperOverflow)));
    assert_eq!(get_sqrt_price_at_tick(MIN_TICK - 1), Err(custom(ErrorCode::TickUpperOverflow)));
}

#[test]
fn tick_of_sqrt_prices() {
    assert_eq!(get_tick_at_sqrt_price(Q64), Ok(0));
    assert_eq!(get_tick_at_sqrt_price(Q64 - 1), Ok(-1));
    assert_eq!(get_tick_at_sqrt_price(AT_100), Ok(100));
    assert_eq!(get_tick_at_sqrt_price(AT_100 - 1), Ok(99));
    assert_eq!(get_tick_at_sqrt_price(MIN_SQRT_PRICE_X64), Ok(MIN_TICK));
    assert_eq!(get_tick_at_sqrt_price(MAX_SQRT_PRICE_X64 - 1), Ok(MAX_TICK - 1));
    assert_eq!(get_tick_at_sqrt_price(MAX_SQRT_PRICE_X64), Err(custom(ErrorCode::SqrtPriceX64)));
    assert_eq!(get_tick_at_sqrt_price(MIN_SQRT_PRICE_X64 - 1), Err(custom(ErrorCode::SqrtPriceX64)));
}

#[test]
fn tick_and_price_roundtrip_on_samples() {
    for t in [-443_636, -200_000, -1_234, -1, 0, 1, 77, 5_000, 300_000, 443_635] {
        let p = get_sqrt_price_at_tick(t).unwrap();
        assert_eq!(get_tick_at_sqrt_price(p), Ok(t));
    }
}

#[test]
fn liquidity_deltas() {
    assert_eq!(add_delta(10, -3), Ok(7));
    assert_eq!(add_delta(10, 5), Ok(15));
    assert_eq!(add_delta(2, -3), Err(custom(ErrorCode::LiquiditySubValueErr)));
    assert_eq!(add_delta(u128::MAX, 1), Err(custom(ErrorCode::LiquidityAddValueErr)));
}

#[test]
fn token_amounts_between_prices() {
    let l = 1_000_000_000_000u128;
    assert_eq!(get_delta_amount_0_unsigned(AT_MINUS_100, Q64, l, true), Ok(5_012_269_624));
    assert_eq!(get_delta_amount_0_unsigned(Q64, AT_MINUS_100, l, false), Ok(5_012_269_623));
    assert_eq!(get_delta_amount_1_unsigned(Q64, AT_100, l, true), Ok(5_012_269_624));
    assert_eq!(get_delta_amount_1_unsigned(AT_100, Q64, l, false), Ok(5_012_269_623));
    assert_eq!(get_delta_amount_0_unsigned(0, Q64, l, true), Err(custom(ErrorCode::ZeroSqrtPrice)));
    assert_eq!(
        get_delta_amount_1_unsigned(MIN_SQRT_PRICE_X64, MAX_SQRT_PRICE_X64, u128::MAX, true),
        Err(custom(ErrorCode::MaxTokenOverflow))
    );
}

#[test]
fn next_sqrt_prices() {
    let l = 1_000_000_000_000u128;
    assert_eq!(get_next_sqrt_price_from_input(Q64, l, 1_000_000, true), Ok(18_446_725_626_983_924_633));
    assert_eq!(get_next_sqrt_price_from_input(Q64, l, 1_000_000, false), Ok(18_446_762_520_453_625_325));
    assert_eq!(get_next_sqrt_price_from_output(Q64, l, 1_000_000, true), Ok(18_446_725_626_965_477_906));
    assert_eq!(get_next_sqrt_price_from_input(0, l, 1, true), Err(custom(ErrorCode::ZeroSqrtPrice)));
    assert_eq!(get_next_sqrt_price_from_input(Q64, 0, 1, true), Err(custom(ErrorCode::ZeroLiquidity)));
    // Taking out more token 1 than the price can give.
    assert_eq!(get_next_sqrt_price_from_output(1, 1, u64::MAX, true), Err(custom(ErrorCode::CalculateOverflow)));
}

#[test]
fn swap_step_within_range() {
    let l = 1_000_000_000_000u128;
    let step = compute_swap(Q64, AT_MINUS_100, l, 1_000_000, 3_000, true, true, true).unwrap();
    assert_eq!(step.sqrt_price_next_x64, 18_446_725_682_324_046_339);
    assert_eq!(step.amount_in, 997_000);
    assert_eq!(step.amount_out, 996_999);
    assert_eq!(step.fee_amount, 3_000);
    // The price stays between the current price and the target.
    assert!(AT_MINUS_100 <= step.sqrt_price_next_x64 && step.sqrt_price_next_x64 <= Q64);
    assert!(step.amount_in + step.fee_amount <= 1_000_000);
}

#[test]
fn swap_step_reaching_target() {
    let l = 1_000_000_000_000u128;
    let step = compute_swap(Q64, AT_100, l, 10_000_000_000, 3_000, true, false, true).unwrap();
    assert_eq!(step.sqrt_price_next_x64, AT_100);
    assert_eq!(step.amount_in, 5_012_269_624);
    assert_eq!(step.amount_out, 4_987_272_070);
    assert_eq!(step.fee_amount, 15_082_056);
}

#[test]
fn swap_step_fee_on_output() {
    let l = 1_000_000_000_000u128;
    let step = compute_swap(Q64, AT_MINUS_100, l, 1_000_000, 3_000, true, true, false).unwrap();
    // The whole amount goes in; the fee is taken from the output.
    assert_eq!(step.amount_in, 1_000_000);
    assert!(step.amount_out + step.fee_amount <= 1_000_000);
}

#[test]
fn swap_step_refuses_target_behind_price() {
    let l = 1_000_000_000_000u128;
    // Target above the price in the falling direction, never reached.
    let r = compute_swap(Q64, AT_100, l, 1, 3_000, true, true, true);
    assert_eq!(r, Err(ProgramError::InvalidArgument));
}

#[test]
fn swap_step_result_new_is_empty() {
    let r = SwapComputationResult::new(5);
    assert_eq!(r, SwapComputationResult { sqrt_price_next_x64: 5, amount_in: 0, amount_out: 0, fee_amount: 0 });
}

#[test]
fn amount_to_reach_a_target() {
    let l = 1_000_000_000_000u128;
    assert_eq!(calculate_amount_in_range(Q64, AT_100, l, false, true), Ok(Some(5_012_269_624)));
    assert_eq!(calculate_amount_in_range(Q64, AT_MINUS_100, l, true, false), Ok(Some(4_987_272_070)));
    // Beyond u64 the amount is reported as unknown.
    assert_eq!(calculate_amount_in_range(MIN_SQRT_PRICE_X64, MAX_SQRT_PRICE_X64, u128::MAX, false, true), Ok(None));
    // A zero price cannot be swapped from.
    assert_eq!(calculate_amount_in_range(0, Q64, l, true, true), Err(custom(ErrorCode::SqrtPriceLimitOverflow)));
}

#[test]
fn compute_swap_step_test() {
    // (current price, target price, liquidity, amount remaining, fee rate,
    // exact input, fee on input), drawn over the whole price range.
    let cases: [(u128, u128, u128, u64, u32, bool, bool); 48] = [
        (57699041812674933570364053718, 15861615667722663850870319500, 3810917031, 7564799255298721055, 794000, true, true),
        (21012983180936314340653745587, 50400824155915368700569435984, 3490011514, 9192038050270074711, 371377, true, false),
        (57659019062131962750973760342, 17281813203077217287470354042, 1329417852, 557648595, 78300, false, true),
        (79201472026782486177089561942, 54605835836322472482521725684, 3232352447, 16391384358881, 969588, false, false),
        (58906423373137280701219715314, 25916905931704267660238028730, 1676351659, 6369594358616885008, 832212, true, true),
        (33815124223983072848562332579, 44976903352387488798184197012, 919368102, 16008094739650895781, 426745, true, false),
        (3207714624032741469410802338, 60365362074921892708209083077, 83411741, 906193745, 530203, false, true),
        (76086449565337884078418551551, 55868291886214117981477653208, 1808392514, 8303162212696, 347213, false, false),
        (28974573051508329722253620362, 29217695046156508947191232719, 2118886805, 15430952499262117738, 658609, true, true),
        (30682822770015637313319851382, 26581141338868238698603369897, 4037490628, 18431343406360957389, 747377, true, false),
        (13454163833470578700543650461, 60833092948624952726464281334, 3698759976, 222168614, 609245, false, true),
        (7763627905312590844297248411, 13764932072270565360788252252, 18540775, 8292309851603, 459422, false, false),
        (6452249480863704588435163811, 22519857030065692035754959768, 1027720928, 8506984976769501707, 630933, true, true),
        (41491673759067629846827775767, 52596982164304567558648516194, 4174771540, 3706610929177670275, 883666, true, false),
        (23966630270126024499319295683, 44727438621106149701131442800, 2841568810, 108030818, 519276, false, true),
        (15484388561345293693887516629, 13953511763484538931826539426, 2213059211, 1605457821503, 335491, false, false),
        (73843305824116307049640447891, 29865614967964943328004539174, 4020655750, 13290184303839037597, 996786, true, true),
        (9392546685386306152903049505, 41019272262812151597846817279, 538904114, 15302406049445209693, 220454, true, false),
        (48721066285638672740337376028, 74985498078629266208315137305, 2165265817, 626996607, 837737, false, true),
        (12837782985984090602315915379, 48946135000680236934263012648, 447953717, 1063569240557, 623033, false, false),
        (44370398402611909750457918510, 55326301434511920385153999871, 1351796120, 2266448607104102164, 294609, true, true),
        (4871108191508041407098553270, 67926168238416443895776003399, 2683911790, 11434471132722819975, 769886, true, false),
        (16468004920753798295573178305, 36522237428307055448760158537, 799542631, 786621090, 475936, false, true),
        (66125521925885021958745276118, 65284908601363958752472579098, 933214228, 4706008688072, 908798, false, false),
        (12706275447325440695360373327, 15602852786373817547746801771, 3232511645, 6579585234737486494, 477447, true, true),
        (9447962511285949669914982291, 231610487293529228272372513, 3319267385, 13873994838175816093, 531509, true, false),
        (77354461669179896911377941241, 48211446269706206010998314631, 1995514503, 865248547, 52379, false, true),
        (843842569087894873557455776, 43816615731264732663990462128, 4179775127, 5547951310110, 921077, false, false),
        (76795850372825749338353385875, 63020819022979649861568541673, 3635086182, 1245376196537331456, 925696, true, true),
        (2003420689076435358312060501, 24358382612552604024012049015, 4068396508, 4656370432614242348, 519057, true, false),
        (65960861509170329778386001848, 34373573309751514362468544094, 4055929077, 171814227, 39097, false, true),
        (9447588948239840041698937685, 50442207640240951619186484588, 4102829269, 1911669637661, 739357, false, false),
        (70781012523509341059131845543, 72223409142128470997343902875, 3821832339, 5043751816816552400, 242128, true, true),
        (43053192228293572983749771876, 10891583646500225705819299141, 912070661, 10769340797327494097, 113304, true, false),
        (74733834167019463829342930752, 55327087988212804103633617501, 1142234199, 820122513, 242149, false, true),
        (40748162437934760262786675791, 29935779550755601947345775003, 2299385393, 9727306795116, 467330, false, false),
        (35646195375663404994276252750, 32043699748897282171929205758, 1709974476, 5195754587009174546, 333686, true, true),
        (18078519844234656049020943520, 61764225433102031628258071785, 3458244780, 4185621106673676911, 441634, true, false),
        (45399871627730247273222846655, 76062046967378469787153850555, 2900813848, 502889533, 676424, false, true),
        (19982406834151504740897140173, 51589163659688395382889318522, 899783963, 10021517280114, 543176, false, false),
        (63806317701952177626543892222, 60545578369574771030090587150, 400008555, 4062980154414468323, 486072, true, true),
        (23505509979934549524804282646, 41079346715248499377449630695, 1672535371, 5199735647935919641, 192749, true, false),
        (72187006191290615745156208679, 63968841558950741995990678263, 1566738629, 692251408, 393329, false, true),
        (59876068936902519839529182569, 10596482510017631150835828582, 435350983, 2679872998251, 339505, false, false),
        (20144838486628959574406109892, 50711619614340122968991390655, 3325790372, 12375547333644908894, 889662, true, true),
        (74604007680928268171612491287, 34395861918003126060249898130, 720519867, 13169698554589690837, 495231, true, false),
        (5492867526423556270006986557, 7941396817851377334280835250, 2547448268, 413731969, 821133, false, true),
        (65813018478100022768497239589, 17642037386909396334555369905, 3243255504, 4848576765812, 172344, false, false),
    ];
    for (cur, tgt, liquidity, amount_remaining, fee_rate, is_base_input, is_fee_on_input) in cases {
        let zero_for_one = cur > tgt;
        let step = compute_swap(cur, tgt, liquidity, amount_remaining, fee_rate, is_base_input, zero_for_one, is_fee_on_input)
            .unwrap();
        let used = if is_base_input {
            if is_fee_on_input { step.amount_in + step.fee_amount } else { step.amount_in }
        } else {
            if is_fee_on_input { step.amount_out } else { step.amount_out + step.fee_amount }
        };
        if step.sqrt_price_next_x64 != tgt {
            assert!(used == amount_remaining);
        } else {
            assert!(used <= amount_remaining);
        }
        assert!(step.sqrt_price_next_x64 >= cur.min(tgt));
        assert!(step.sqrt_price_next_x64 <= cur.max(tgt));
    }
}

#[test]
fn exact_output_fee_on_output_takes_fee_from_amount() {
    let l = 1_000_000_000_000u128;
    // Exact output of 1_000_000 token 1 with a 0.3% fee on output: the
    // price moves for the whole amount and the fee comes out of it.
    let step = compute_swap(Q64, AT_MINUS_100, l, 1_000_000, 3_000, false, true, false).unwrap();
    assert_eq!(step.amount_out + step.fee_amount, 1_000_000);
    assert_eq!(step.fee_amount, 3_000);
    assert_eq!(step.sqrt_price_next_x64, 18_446_725_626_965_477_906);
}

#[test]
fn scale_floor() {
    let samples: [(u64, u64, u64); 5] = [
        (u64::MAX, u64::MAX, 1),
        (u64::MAX, u64::MAX, u64::MAX),
        (123_456_789, 987_654_321, 1_000_003),
        (7, 0, 5),
        (1 << 40, 1 << 30, 1 << 7),
    ];
    for (val, num, den) in samples {
        let expected = (val as u128) * (num as u128) / (den as u128);
        let res = val.mul_div_floor(num, den);
        if expected > u64::MAX as u128 {
            assert!(res.is_none());
        } else {
            assert_eq!(res, Some(expected as u64));
        }
        let wide = U128::from_u64(val).mul_div_floor(U128::from_u64(num), U128::from_u64(den)).unwrap();
        assert_eq!(wide.as_u128(), expected);
    }
}

#[test]
fn scale_ceil() {
    let samples: [(u64, u64, u64); 5] = [
        (u64::MAX, u64::MAX, 1),
        (u64::MAX, u64::MAX, u64::MAX),
        (123_456_789, 987_654_321, 1_000_003),
        (7, 0, 5),
        (10, 1, 3),
    ];
    for (val, num, den) in samples {
        let p = (val as u128) * (num as u128);
        let expected = p / (den as u128) + if p % (den as u128) != 0 { 1 } else { 0 };
        let res = val.mul_div_ceil(num, den);
        if expected > u64::MAX as u128 {
            assert!(res.is_none());
        } else {
            assert_eq!(res, Some(expected as u64));
        }
        let wide = U128::from_u64(val).mul_div_ceil(U128::from_u64(num), U128::from_u64(den)).unwrap();
        assert_eq!(wide.as_u128(), expected);
    }
}

#[test]
fn exact_output_fee_on_output_uses_all_short_of_target() {
    // Selling token 0 for 1_000 of token 1, the fee taken from the output:
    // the step stops short of its target and uses exactly the amount.
    let step = compute_swap(Q64, Q64 - (1u128 << 50), 1_000_000_000, 1_000, 3_000, false, true, false).unwrap();
    assert_eq!(step.sqrt_price_next_x64, 18_446_725_626_965_477_906);
    assert_eq!(step.amount_out, 997);
    assert_eq!(step.fee_amount, 3);
    assert_eq!(step.amount_in, 1_001);
    assert_eq!(step.amount_out + step.fee_amount, 1_000);
}

#[test]
fn exact_output_fee_on_output_at_target_uses_no_more() {
    // The whole range holds only 953 of token 1: the step reaches its
    // target and uses less than the 1_000 asked for.
    let tgt = Q64 - (1u128 << 44);
    let step = compute_swap(Q64, tgt, 1_000_000_000, 1_000, 3_000, false, true, false).unwrap();
    assert_eq!(step.sqrt_price_next_x64, tgt);
    assert_eq!(step.amount_out, 950);
    assert_eq!(step.fee_amount, 3);
    assert_eq!(step.amount_in, 954);
    assert!(step.amount_out + step.fee_amount <= 1_000);
}
