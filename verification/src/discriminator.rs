//! The 8-byte tags that open instruction data, and the choice of handler
//! they make.

use crate::error::{ProgramError, Result};
use crate::util::account_load::tag_matches;
use vstd::prelude::*;

verus! {

/// Tag of the exact-amount swap.
pub const SWAP: [u8; 8] = [248, 198, 158, 145, 225, 117, 135, 200];
/// Tag of the token-2022-aware swap.
pub const SWAP_V2: [u8; 8] = [43, 4, 237, 11, 26, 201, 30, 98];
/// Tag of pool creation.
pub const CREATE_POOL: [u8; 8] = [233, 146, 209, 142, 207, 104, 64, 188];
/// Tag of adding liquidity to a position.
pub const INCREASE_LIQUIDITY_V2: [u8; 8] = [133, 29, 89, 223, 69, 238, 176, 10];
/// Tag of removing liquidity from a position.
pub const DECREASE_LIQUIDITY_V2: [u8; 8] = [58, 127, 188, 62, 79, 82, 196, 96];

/// The instructions this program handles.
#[derive(Copy, Clone, Debug, PartialEq, Eq, Structural)]
pub enum InstructionKind {
    Swap,
    SwapV2,
    CreatePool,
    IncreaseLiquidityV2,
    DecreaseLiquidityV2,
}

/// The instruction that instruction data names: fewer than 8 bytes, or a
/// tag of no handled instruction, is `InvalidInstructionData`.
pub open spec fn spec_decode_instruction(data: Seq<u8>) -> Result<InstructionKind> {
    if data.len() < 8 {
        Err(ProgramError::InvalidInstructionData)
    } else {
        let tag = data.subrange(0, 8);
        if tag == SWAP@ {
            Ok(InstructionKind::Swap)
        } else if tag == SWAP_V2@ {
            Ok(InstructionKind::SwapV2)
        } else if tag == CREATE_POOL@ {
            Ok(InstructionKind::CreatePool)
        } else if tag == INCREASE_LIQUIDITY_V2@ {
            Ok(InstructionKind::IncreaseLiquidityV2)
        } else if tag == DECREASE_LIQUIDITY_V2@ {
            Ok(InstructionKind::DecreaseLiquidityV2)
        } else {
            Err(ProgramError::InvalidInstructionData)
        }
    }
}

/// Reads the instruction tag; the arguments follow it.
pub fn decode_instruction(instruction_data: &[u8]) -> (r: Result<InstructionKind>)
    ensures
        r == spec_decode_instruction(instruction_data@),
{
    if instruction_data.len() < 8 {
        return Err(ProgramError::InvalidInstructionData);
    }
    if tag_matches(instruction_data, &SWAP) {
        Ok(InstructionKind::Swap)
    } else if tag_matches(instruction_data, &SWAP_V2) {
        Ok(InstructionKind::SwapV2)
    } else if tag_matches(instruction_data, &CREATE_POOL) {
        Ok(InstructionKind::CreatePool)
    } else if tag_matches(instruction_data, &INCREASE_LIQUIDITY_V2) {
        Ok(InstructionKind::IncreaseLiquidityV2)
    } else if tag_matches(instruction_data, &DECREASE_LIQUIDITY_V2) {
        Ok(InstructionKind::DecreaseLiquidityV2)
    } else {
        Err(ProgramError::InvalidInstructionData)
    }
}

} // verus!
