//! Token-program identification, transfer-fee arithmetic and the parsing of
//! a mint's transfer-fee extension.

use crate::error::{ProgramError, Result};
use crate::libraries::arith::{ceil_div, lemma_ceil_div_bounds, lemma_ceil_div_compare, lemma_ceil_div_split};
use crate::util::bytes::{le_value, read_u16_le, read_u64_le};
use crate::Pubkey;
use vstd::prelude::*;

verus! {

/// The classic SPL token program.
pub const SPL_TOKEN_ID: Pubkey = [
    6, 221, 246, 225, 215, 101, 161, 147, 217, 203, 225, 70, 206, 235, 121, 172,
    28, 180, 133, 237, 95, 91, 55, 145, 58, 140, 245, 133, 126, 255, 0, 169,
];

/// The token program with extensions.
pub const TOKEN_2022_ID: Pubkey = [
    6, 221, 246, 225, 238, 117, 143, 222, 24, 66, 93, 188, 228, 108, 205, 218,
    182, 26, 252, 77, 131, 185, 13, 39, 254, 189, 249, 40, 216, 161, 139, 252,
];

/// The compute-optimised token program.
pub const P_TOKEN_ID: Pubkey = [
    12, 40, 155, 149, 251, 77, 82, 136, 213, 161, 133, 226, 11, 224, 240, 154,
    136, 175, 133, 99, 134, 226, 60, 194, 17, 222, 8, 176, 161, 159, 29, 82,
];

/// Whether two addresses are equal, byte for byte.
pub fn pubkey_eq(a: &Pubkey, b: &Pubkey) -> (r: bool)
    ensures
        r == (a@ == b@),
{
    let mut i: usize = 0;
    while i < 32
        invariant
            0 <= i <= 32,
            forall|j: int| 0 <= j < i ==> a@[j] == b@[j],
        decreases 32 - i,
    {
        if a[i] != b[i] {
            assert(a@[i as int] != b@[i as int]);
            return false;
        }
        i = i + 1;
    }
    assert(a@ =~= b@);
    true
}

/// The token programs a vault may belong to.
#[derive(Copy, Clone, Eq, PartialEq, Debug, Structural)]
pub enum TokenKind {
    SplClassic,
    Token2022,
    PToken,
}

/// The program that owns tokens of `kind`.
pub open spec fn spec_program_id(kind: TokenKind) -> Seq<u8> {
    match kind {
        TokenKind::SplClassic => SPL_TOKEN_ID@,
        TokenKind::Token2022 => TOKEN_2022_ID@,
        TokenKind::PToken => P_TOKEN_ID@,
    }
}

/// The kind of token program at `owner`, if it is one.
pub open spec fn spec_token_kind(owner: Seq<u8>) -> Option<TokenKind> {
    if owner == SPL_TOKEN_ID@ {
        Some(TokenKind::SplClassic)
    } else if owner == TOKEN_2022_ID@ {
        Some(TokenKind::Token2022)
    } else if owner == P_TOKEN_ID@ {
        Some(TokenKind::PToken)
    } else {
        None
    }
}

impl TokenKind {
    /// The kind of the token program `owner`; `IncorrectProgramId` for any
    /// other address.
    pub fn from_owner(owner: &Pubkey) -> (r: Result<Self>)
        ensures
            spec_token_kind(owner@) matches Some(k) ==> r == Ok::<TokenKind, ProgramError>(k),
            spec_token_kind(owner@) is None ==> r == Err::<TokenKind, ProgramError>(ProgramError::IncorrectProgramId),
    {
        if pubkey_eq(owner, &SPL_TOKEN_ID) {
            Ok(TokenKind::SplClassic)
        } else if pubkey_eq(owner, &TOKEN_2022_ID) {
            Ok(TokenKind::Token2022)
        } else if pubkey_eq(owner, &P_TOKEN_ID) {
            Ok(TokenKind::PToken)
        } else {
            Err(ProgramError::IncorrectProgramId)
        }
    }

    /// The address of the program that owns tokens of this kind.
    pub fn program_id(self) -> (r: Pubkey)
        ensures
            r@ == spec_program_id(self),
    {
        match self {
            TokenKind::SplClassic => SPL_TOKEN_ID,
            TokenKind::Token2022 => TOKEN_2022_ID,
            TokenKind::PToken => P_TOKEN_ID,
        }
    }
}

/// Each token program's address identifies it: looking up the kind of the
/// address of a kind gives that kind back.
pub proof fn lemma_token_kind_roundtrip(kind: TokenKind)
    ensures
        spec_token_kind(spec_program_id(kind)) == Some(kind),
{
    assert(SPL_TOKEN_ID@[4] != TOKEN_2022_ID@[4]);
    assert(SPL_TOKEN_ID@[4] != P_TOKEN_ID@[4]);
    assert(TOKEN_2022_ID@[4] != P_TOKEN_ID@[4]);
}

/// The instruction data of a checked transfer: tag 12, the amount in
/// little-endian, the decimals.
pub open spec fn spec_transfer_checked_data(amount: u64, decimals: u8) -> Seq<u8> {
    seq![12u8] + spec_u64_le_bytes(amount) + seq![decimals]
}

/// The eight little-endian bytes of `v`.
pub open spec fn spec_u64_le_bytes(v: u64) -> Seq<u8> {
    Seq::new(8, |i: int| ((v as nat / pow2_8(i)) % 256) as u8)
}

/// `256^i` for a byte position.
pub open spec fn pow2_8(i: int) -> nat
    decreases i,
{
    if i <= 0 { 1 } else { 256 * pow2_8(i - 1) }
}

/// Writes the little-endian bytes of `v` at `out[off..off + 8]`.
fn put_u64_le(out: &mut [u8], off: usize, v: u64)
    requires
        off + 8 <= old(out)@.len(),
    ensures
        final(out)@.len() == old(out)@.len(),
        forall|i: int| 0 <= i < off || off + 8 <= i < old(out)@.len() ==> #[trigger] final(out)@[i] == old(out)@[i],
        forall|i: int| 0 <= i < 8 ==> #[trigger] final(out)@[off + i] == spec_u64_le_bytes(v)[i],
{
    let n = out.len();
    let mut x: u64 = v;
    let mut i: usize = 0;
    assert(pow2_8(0) == 1);
    assert(v as nat / 1 == v as nat);
    while i < 8
        invariant
            0 <= i <= 8,
            n == out@.len(),
            off + 8 <= out@.len(),
            out@.len() == old(out)@.len(),
            x as nat == v as nat / pow2_8(i as int),
            forall|j: int| 0 <= j < off || off + 8 <= j < old(out)@.len() ==> #[trigger] out@[j] == old(out)@[j],
            forall|j: int| 0 <= j < i ==> #[trigger] out@[off + j] == spec_u64_le_bytes(v)[j],
        decreases 8 - i,
    {
        out[off + i] = (x % 256) as u8;
        proof {
            assert(pow2_8(i as int + 1) == 256 * pow2_8(i as int));
            assert(pow2_8(i as int) > 0) by {
                lemma_pow2_8_pos(i as int);
            }
            vstd::arithmetic::div_mod::lemma_div_denominator(v as int, pow2_8(i as int) as int, 256);
        }
        x = x / 256;
        i = i + 1;
    }
}

/// `256^i` is positive.
proof fn lemma_pow2_8_pos(i: int)
    ensures
        pow2_8(i) > 0,
    decreases i,
{
    if i > 0 {
        lemma_pow2_8_pos(i - 1);
    }
}

/// The data of a checked transfer of `amount` tokens with `decimals`, after
/// checking that `token_program` is the program of `kind`
/// (`IncorrectProgramId` otherwise).
pub fn transfer_checked(kind: TokenKind, token_program: &Pubkey, amount: u64, decimals: u8) -> (r: Result<[u8; 10]>)
    ensures
        token_program@ != spec_program_id(kind) ==> r == Err::<[u8; 10], ProgramError>(ProgramError::IncorrectProgramId),
        token_program@ == spec_program_id(kind) ==> (r matches Ok(d) && d@ == spec_transfer_checked_data(amount, decimals)),
{
    let id = kind.program_id();
    if !pubkey_eq(token_program, &id) {
        return Err(ProgramError::IncorrectProgramId);
    }
    let mut data = [0u8; 10];
    data[0] = 12;
    put_u64_le(&mut data, 1, amount);
    data[9] = decimals;
    assert forall|k: int| 1 <= k < 9 implies data@[k] == spec_u64_le_bytes(amount)[k - 1] by {
        assert(data@[1 + (k - 1)] == spec_u64_le_bytes(amount)[k - 1]);
    }
    assert(data@ =~= spec_transfer_checked_data(amount, decimals));
    Ok(data)
}

/// The data of a plain transfer of `amount` tokens: tag 3, then the amount
/// in little-endian.
pub fn transfer_data(amount: u64) -> (r: [u8; 9])
    ensures
        r@ == seq![3u8] + spec_u64_le_bytes(amount),
{
    let mut data = [0u8; 9];
    data[0] = 3;
    put_u64_le(&mut data, 1, amount);
    assert forall|k: int| 1 <= k < 9 implies data@[k] == spec_u64_le_bytes(amount)[k - 1] by {
        assert(data@[1 + (k - 1)] == spec_u64_le_bytes(amount)[k - 1]);
    }
    assert(data@ =~= seq![3u8] + spec_u64_le_bytes(amount));
    data
}

/// Account-type byte of a mint with extensions.
pub const ACCOUNT_TYPE_MINT: u8 = 1;
/// Length of a mint's base layout.
pub const MINT_BASE_LEN: usize = 82;
/// Extension type of the transfer-fee configuration.
pub const EXT_TYPE_TRANSFER_FEE_CONFIG: u16 = 1;
/// Offset of the older fee schedule within the extension.
pub const TFEE_OLDER_OFFSET: usize = 72;
/// Offset of the newer fee schedule within the extension.
pub const TFEE_NEWER_OFFSET: usize = 96;
/// Length of one fee schedule.
pub const TFEE_ENTRY_LEN: usize = 24;

/// Basis-point denominator of a transfer fee.
pub const MAX_FEE_BASIS_POINTS: u128 = 10_000;

/// One transfer-fee schedule entry of a mint.
#[derive(Copy, Clone, Debug)]
pub struct TransferFee {
    pub epoch: u64,
    pub maximum_fee: u64,
    pub transfer_fee_basis_points: u16,
}

/// The fee withheld from a transfer of `gross` tokens: the basis-point share,
/// rounded up, taken modulo 2^64, then capped at the maximum fee.
pub open spec fn spec_transfer_fee(fee: TransferFee, gross: u64) -> u64 {
    if fee.transfer_fee_basis_points == 0 || gross == 0 {
        0
    } else {
        let raw = (ceil_div(gross * fee.transfer_fee_basis_points, 10_000) % 0x1_0000_0000_0000_0000) as u64;
        if raw < fee.maximum_fee { raw } else { fee.maximum_fee }
    }
}

/// The smallest gross amount whose uncapped fee leaves at least `net`:
/// `None` for a fee of 100% or more, or where it does not fit in a `u64`.
pub open spec fn spec_pre_fee_amount(fee: TransferFee, net: u64) -> Option<u64> {
    if fee.transfer_fee_basis_points == 0 {
        Some(net)
    } else if fee.transfer_fee_basis_points >= 10_000 {
        None
    } else {
        let raw = ceil_div(net * 10_000, 10_000 - fee.transfer_fee_basis_points);
        if raw > u64::MAX { None } else { Some(raw as u64) }
    }
}

/// `ceil(n / d)` on `u128`.
fn div_ceil_u128(n: u128, d: u128) -> (r: u128)
    requires
        d > 0,
    ensures
        r == ceil_div(n as int, d as int),
{
    let q = n / d;
    let rem = n % d;
    proof {
        lemma_ceil_div_split(n as int, d as int);
        vstd::arithmetic::div_mod::lemma_fundamental_div_mod(n as int, d as int);
        if rem != 0 {
            assert(d >= 2);
            assert(q * 2 <= q * d) by (nonlinear_arith) requires d >= 2, q >= 0;
        }
    }
    if rem != 0 { q + 1 } else { q }
}

/// The transfer fee charged on `gross_amount`.
pub fn calculate_transfer_fee(fee: &TransferFee, gross_amount: u64) -> (r: u64)
    ensures
        r == spec_transfer_fee(*fee, gross_amount),
{
    if fee.transfer_fee_basis_points == 0 || gross_amount == 0 {
        return 0;
    }
    proof {
        assert((gross_amount as u128) * (fee.transfer_fee_basis_points as u128)
            <= 0xffff_ffff_ffff_ffff * 0xffff) by (nonlinear_arith);
    }
    let numerator = (gross_amount as u128) * (fee.transfer_fee_basis_points as u128);
    let raw_wide = div_ceil_u128(numerator, 10_000u128);
    let raw = (raw_wide % 0x1_0000_0000_0000_0000u128) as u64;
    if raw < fee.maximum_fee { raw } else { fee.maximum_fee }
}

/// The gross amount to send so that `post_fee_amount` arrives after an
/// uncapped fee; `None` where no such `u64` exists.
pub fn calculate_pre_fee_amount(fee: &TransferFee, post_fee_amount: u64) -> (r: Option<u64>)
    ensures
        r == spec_pre_fee_amount(*fee, post_fee_amount),
{
    if fee.transfer_fee_basis_points == 0 {
        return Some(post_fee_amount);
    }
    if fee.transfer_fee_basis_points as u32 >= 10_000 {
        return None;
    }
    let denominator = 10_000u128 - fee.transfer_fee_basis_points as u128;
    let numerator = (post_fee_amount as u128) * 10_000u128;
    let raw = div_ceil_u128(numerator, denominator);
    if raw > u64::MAX as u128 {
        None
    } else {
        Some(raw as u64)
    }
}

/// The fee schedule stored at `data[off..off + 18]`: epoch, maximum fee,
/// basis points, each little-endian.
pub open spec fn spec_fee_entry(data: Seq<u8>, off: int) -> TransferFee {
    TransferFee {
        epoch: le_value(data.subrange(off, off + 8)) as u64,
        maximum_fee: le_value(data.subrange(off + 8, off + 16)) as u64,
        transfer_fee_basis_points: le_value(data.subrange(off + 16, off + 18)) as u16,
    }
}

/// Walks the extension entries (type, length, body) from `cursor` on: the
/// fee schedule in force at `epoch` of the first transfer-fee extension that
/// is long enough; `None` on a truncated entry or when there is none.
pub open spec fn spec_find_fee_from(data: Seq<u8>, cursor: int, epoch: u64) -> Option<TransferFee>
    decreases data.len() - cursor,
{
    if cursor < 0 || cursor + 4 > data.len() {
        None
    } else {
        let ty = le_value(data.subrange(cursor, cursor + 2));
        let len = le_value(data.subrange(cursor + 2, cursor + 4)) as int;
        let body = cursor + 4;
        if body + len > data.len() {
            None
        } else if ty == EXT_TYPE_TRANSFER_FEE_CONFIG && len >= TFEE_NEWER_OFFSET + TFEE_ENTRY_LEN {
            let older = spec_fee_entry(data, body + TFEE_OLDER_OFFSET);
            let newer = spec_fee_entry(data, body + TFEE_NEWER_OFFSET);
            Some(if epoch >= newer.epoch { newer } else { older })
        } else {
            spec_find_fee_from(data, body + len, epoch)
        }
    }
}

/// The transfer fee of a mint: only mints of the extension program that are
/// tagged as mints past their base layout carry one.
pub open spec fn spec_find_transfer_fee(owner: Seq<u8>, data: Seq<u8>, epoch: u64) -> Option<TransferFee> {
    if owner != TOKEN_2022_ID@ {
        None
    } else if data.len() <= MINT_BASE_LEN || data[MINT_BASE_LEN as int] != ACCOUNT_TYPE_MINT {
        None
    } else {
        spec_find_fee_from(data, MINT_BASE_LEN + 1, epoch)
    }
}

/// Reads the fee schedule at `data[off..]`.
pub fn parse_fee_entry(data: &[u8], off: usize) -> (r: TransferFee)
    requires
        off + 18 <= data@.len(),
    ensures
        r == spec_fee_entry(data@, off as int),
{
    let _n = data.len();
    let epoch = read_u64_le(data, off);
    let maximum_fee = read_u64_le(data, off + 8);
    let transfer_fee_basis_points = read_u16_le(data, off + 16);
    TransferFee { epoch, maximum_fee, transfer_fee_basis_points }
}

/// The transfer fee in force at `epoch` for the mint owned by `mint_owner`
/// with account data `mint_data`.
pub fn find_transfer_fee(mint_owner: &Pubkey, mint_data: &[u8], epoch: u64) -> (r: Option<TransferFee>)
    ensures
        r == spec_find_transfer_fee(mint_owner@, mint_data@, epoch),
{
    if !pubkey_eq(mint_owner, &TOKEN_2022_ID) {
        return None;
    }
    let n = mint_data.len();
    if n <= MINT_BASE_LEN || mint_data[MINT_BASE_LEN] != ACCOUNT_TYPE_MINT {
        return None;
    }
    let mut cursor: usize = MINT_BASE_LEN + 1;
    assert(spec_find_transfer_fee(mint_owner@, mint_data@, epoch) == spec_find_fee_from(mint_data@, MINT_BASE_LEN + 1, epoch));
    while n >= 4 && cursor <= n - 4
        invariant
            n == mint_data@.len(),
            MINT_BASE_LEN + 1 <= cursor <= n,
            spec_find_fee_from(mint_data@, cursor as int, epoch) == spec_find_transfer_fee(mint_owner@, mint_data@, epoch),
        decreases n - cursor,
    {
        let ty = read_u16_le(mint_data, cursor);
        let len = read_u16_le(mint_data, cursor + 2) as usize;
        cursor = cursor + 4;
        if len > n - cursor {
            return None;
        }
        if ty == EXT_TYPE_TRANSFER_FEE_CONFIG && len >= TFEE_NEWER_OFFSET + TFEE_ENTRY_LEN {
            let older = parse_fee_entry(mint_data, cursor + TFEE_OLDER_OFFSET);
            let newer = parse_fee_entry(mint_data, cursor + TFEE_NEWER_OFFSET);
            return Some(if epoch >= newer.epoch { newer } else { older });
        }
        cursor = cursor + len;
    }
    None
}

/// With a rate of at most 100%, the fee never exceeds the amount sent.
pub proof fn lemma_transfer_fee_at_most_gross(fee: TransferFee, gross: u64)
    requires
        fee.transfer_fee_basis_points <= 10_000,
    ensures
        spec_transfer_fee(fee, gross) <= gross,
{
    if fee.transfer_fee_basis_points != 0 && gross != 0 {
        let b = fee.transfer_fee_basis_points as int;
        let g = gross as int;
        assert(g * b <= g * 10_000) by (nonlinear_arith) requires 0 <= b <= 10_000, g >= 0;
        assert(g * b >= 0) by (nonlinear_arith) requires b >= 0, g >= 0;
        lemma_ceil_div_compare(g * b, 10_000, g);
        lemma_ceil_div_bounds(g * b, 10_000);
        vstd::arithmetic::div_mod::lemma_small_mod(ceil_div(g * b, 10_000) as nat, 0x1_0000_0000_0000_0000nat);
    }
}

/// Grossing up what arrives after an uncapped fee of at most 50% gives
/// back the amount sent, or one less: for a fee whose cap does not bind on
/// `gross`, the amount computed to send so that `gross - fee` arrives lies
/// in `[gross - 1, gross]`.
pub proof fn lemma_pre_fee_amount_recovers_gross(fee: TransferFee, gross: u64)
    requires
        fee.transfer_fee_basis_points <= 5_000,
        ceil_div(gross * fee.transfer_fee_basis_points, 10_000) <= fee.maximum_fee,
    ensures
        spec_transfer_fee(fee, gross) <= gross,
        spec_pre_fee_amount(fee, (gross - spec_transfer_fee(fee, gross)) as u64) matches Some(x)
            && gross - 1 <= x <= gross,
{
    lemma_transfer_fee_at_most_gross(fee, gross);
    let b = fee.transfer_fee_basis_points as int;
    let g = gross as int;
    let n = 10_000int;
    if b != 0 && g != 0 {
        assert(g * b >= 0) by (nonlinear_arith) requires b >= 0, g >= 0;
        lemma_ceil_div_bounds(g * b, n);
        let f = ceil_div(g * b, n);
        vstd::arithmetic::div_mod::lemma_small_mod(f as nat, 0x1_0000_0000_0000_0000nat);
        assert(spec_transfer_fee(fee, gross) == f);
        let net = g - f;
        let y = net * n;
        assert(y <= g * (n - b)) by (nonlinear_arith) requires n * f >= g * b, y == (g - f) * n, n == 10_000;
        assert(y > (g - 2) * (n - b)) by (nonlinear_arith)
            requires n * (f - 1) < g * b, y == (g - f) * n, n == 10_000, 0 < b <= 5_000;
        assert(y >= 0) by (nonlinear_arith) requires net >= 0, y == net * n, n == 10_000;
        lemma_ceil_div_compare(y, n - b, g);
        lemma_ceil_div_bounds(y, n - b);
        let x = ceil_div(y, n - b);
        assert(x > g - 2) by (nonlinear_arith)
            requires (n - b) * x >= y, y > (g - 2) * (n - b), n - b > 0;
    } else if b != 0 {
        lemma_ceil_div_compare(0, n - b, 0);
    }
}

/// The gross-up is the least amount to send: with a rate under 100%,
/// sending the pre-fee amount of `net` leaves at least `net` after the fee,
/// and any smaller amount leaves less than `net` once the basis-point share
/// (rounded up, before any cap) is taken.
pub proof fn lemma_pre_fee_amount_is_least(fee: TransferFee, net: u64, gross: u64)
    requires
        fee.transfer_fee_basis_points < 10_000,
    ensures
        spec_pre_fee_amount(fee, net) matches Some(x) ==> {
            &&& spec_transfer_fee(fee, x) <= x
            &&& x - spec_transfer_fee(fee, x) >= net
            &&& (gross < x ==> gross - ceil_div(gross * fee.transfer_fee_basis_points, 10_000) < net)
        },
{
    let b = fee.transfer_fee_basis_points as int;
    let n = 10_000int;
    let g = gross as int;
    if b != 0 {
        let y = net * n;
        let d = n - b;
        assert(y >= 0) by (nonlinear_arith) requires net >= 0, y == net * n, n == 10_000;
        lemma_ceil_div_bounds(y, d);
        let x = ceil_div(y, d);
        if x <= u64::MAX {
            lemma_transfer_fee_at_most_gross(fee, x as u64);
            // x * d >= net * n, so the share of x is at most x - net.
            assert(x * b <= (x - net) * n) by (nonlinear_arith)
                requires d * x >= y, y == net * n, d == n - b;
            assert(x * b >= 0) by (nonlinear_arith) requires x >= 0, b >= 0;
            lemma_ceil_div_compare(x * b, n, x - net);
            lemma_ceil_div_bounds(x * b, n);
            if x != 0 {
                let raw = ceil_div(x * b, n);
                vstd::arithmetic::div_mod::lemma_small_mod(raw as nat, 0x1_0000_0000_0000_0000nat);
                assert(spec_transfer_fee(fee, x as u64) <= raw);
            }
            if g < x {
                // g * d < net * n, so the share of g exceeds g - net.
                lemma_ceil_div_compare(y, d, 0);
                assert(y != 0);
                assert(g * d < y) by (nonlinear_arith) requires g <= x - 1, d > 0, d * (x - 1) < y;
                assert(g * b > (g - net) * n) by (nonlinear_arith)
                    requires g * d < y, y == net * n, d == n - b;
                assert(g * b >= 0) by (nonlinear_arith) requires g >= 0, b >= 0;
                lemma_ceil_div_bounds(g * b, n);
                assert(g * b > 0 || g - net < 0);
                if g - net >= 0 {
                    lemma_ceil_div_compare(g * b, n, g - net + 1);
                }
            }
        }
    }
}

} // verus!
