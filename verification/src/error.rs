//! Error codes of the program and the error type every fallible operation returns.

use vstd::prelude::*;

verus! {

/// Program-specific failures; each maps to a custom error number starting at 6000.
#[derive(Debug, Clone, Copy, PartialEq, Eq, Structural)]
pub enum ErrorCode {
    NotApproved,
    InvalidUpdateConfigFlag,
    AccountLack,
    ClosePositionErr,
    ZeroMintAmount,
    InvalidTickIndex,
    TickInvalidOrder,
    TickLowerOverflow,
    TickUpperOverflow,
    TickAndSpacingNotMatch,
    InvalidTickArray,
    InvalidTickArrayBoundary,
    SqrtPriceLimitOverflow,
    SqrtPriceX64,
    LiquiditySubValueErr,
    LiquidityAddValueErr,
    InvalidLiquidity,
    ForbidBothZeroForSupplyLiquidity,
    LiquidityInsufficient,
    TransactionTooOld,
    PriceSlippageCheck,
    TooLittleOutputReceived,
    TooMuchInputPaid,
    InvaildSwapAmountSpecified,
    InvalidInputPoolVault,
    TooSmallInputOrOutputAmount,
    NotEnoughTickArrayAccount,
    InvalidFirstTickArrayAccount,
    InvalidRewardIndex,
    FullRewardInfo,
    RewardTokenAlreadyInUse,
    ExceptPoolVaultMint,
    InvalidRewardInitParam,
    InvalidRewardDesiredAmount,
    InvalidRewardInputAccountNumber,
    InvalidRewardPeriod,
    NotApproveUpdateRewardEmissiones,
    UnInitializedRewardInfo,
    NotSupportMint,
    MissingTickArrayBitmapExtensionAccount,
    InsufficientLiquidityForDirection,
    MaxTokenOverflow,
    CalculateOverflow,
    TransferFeeCalculateNotMatch,
    MissingBaseFlag,
    ZeroSqrtPrice,
    ZeroLiquidity,
}

/// Position of an error code in the declaration order above.
pub open spec fn error_code_index(e: ErrorCode) -> u32 {
    match e {
        ErrorCode::NotApproved => 0,
        ErrorCode::InvalidUpdateConfigFlag => 1,
        ErrorCode::AccountLack => 2,
        ErrorCode::ClosePositionErr => 3,
        ErrorCode::ZeroMintAmount => 4,
        ErrorCode::InvalidTickIndex => 5,
        ErrorCode::TickInvalidOrder => 6,
        ErrorCode::TickLowerOverflow => 7,
        ErrorCode::TickUpperOverflow => 8,
        ErrorCode::TickAndSpacingNotMatch => 9,
        ErrorCode::InvalidTickArray => 10,
        ErrorCode::InvalidTickArrayBoundary => 11,
        ErrorCode::SqrtPriceLimitOverflow => 12,
        ErrorCode::SqrtPriceX64 => 13,
        ErrorCode::LiquiditySubValueErr => 14,
        ErrorCode::LiquidityAddValueErr => 15,
        ErrorCode::InvalidLiquidity => 16,
        ErrorCode::ForbidBothZeroForSupplyLiquidity => 17,
        ErrorCode::LiquidityInsufficient => 18,
        ErrorCode::TransactionTooOld => 19,
        ErrorCode::PriceSlippageCheck => 20,
        ErrorCode::TooLittleOutputReceived => 21,
        ErrorCode::TooMuchInputPaid => 22,
        ErrorCode::InvaildSwapAmountSpecified => 23,
        ErrorCode::InvalidInputPoolVault => 24,
        ErrorCode::TooSmallInputOrOutputAmount => 25,
        ErrorCode::NotEnoughTickArrayAccount => 26,
        ErrorCode::InvalidFirstTickArrayAccount => 27,
        ErrorCode::InvalidRewardIndex => 28,
        ErrorCode::FullRewardInfo => 29,
        ErrorCode::RewardTokenAlreadyInUse => 30,
        ErrorCode::ExceptPoolVaultMint => 31,
        ErrorCode::InvalidRewardInitParam => 32,
        ErrorCode::InvalidRewardDesiredAmount => 33,
        ErrorCode::InvalidRewardInputAccountNumber => 34,
        ErrorCode::InvalidRewardPeriod => 35,
        ErrorCode::NotApproveUpdateRewardEmissiones => 36,
        ErrorCode::UnInitializedRewardInfo => 37,
        ErrorCode::NotSupportMint => 38,
        ErrorCode::MissingTickArrayBitmapExtensionAccount => 39,
        ErrorCode::InsufficientLiquidityForDirection => 40,
        ErrorCode::MaxTokenOverflow => 41,
        ErrorCode::CalculateOverflow => 42,
        ErrorCode::TransferFeeCalculateNotMatch => 43,
        ErrorCode::MissingBaseFlag => 44,
        ErrorCode::ZeroSqrtPrice => 45,
        ErrorCode::ZeroLiquidity => 46,
    }
}

/// The first custom error number.
pub const ERROR_CODE_OFFSET: u32 = 6000;

impl ErrorCode {
    /// The custom error number of this code: 6000 plus its position.
    pub fn code(self) -> (r: u32)
        ensures
            r == ERROR_CODE_OFFSET + error_code_index(self),
    {
        let idx: u32 = match self {
            ErrorCode::NotApproved => 0,
            ErrorCode::InvalidUpdateConfigFlag => 1,
            ErrorCode::AccountLack => 2,
            ErrorCode::ClosePositionErr => 3,
            ErrorCode::ZeroMintAmount => 4,
            ErrorCode::InvalidTickIndex => 5,
            ErrorCode::TickInvalidOrder => 6,
            ErrorCode::TickLowerOverflow => 7,
            ErrorCode::TickUpperOverflow => 8,
            ErrorCode::TickAndSpacingNotMatch => 9,
            ErrorCode::InvalidTickArray => 10,
            ErrorCode::InvalidTickArrayBoundary => 11,
            ErrorCode::SqrtPriceLimitOverflow => 12,
            ErrorCode::SqrtPriceX64 => 13,
            ErrorCode::LiquiditySubValueErr => 14,
            ErrorCode::LiquidityAddValueErr => 15,
            ErrorCode::InvalidLiquidity => 16,
            ErrorCode::ForbidBothZeroForSupplyLiquidity => 17,
            ErrorCode::LiquidityInsufficient => 18,
            ErrorCode::TransactionTooOld => 19,
            ErrorCode::PriceSlippageCheck => 20,
            ErrorCode::TooLittleOutputReceived => 21,
            ErrorCode::TooMuchInputPaid => 22,
            ErrorCode::InvaildSwapAmountSpecified => 23,
            ErrorCode::InvalidInputPoolVault => 24,
            ErrorCode::TooSmallInputOrOutputAmount => 25,
            ErrorCode::NotEnoughTickArrayAccount => 26,
            ErrorCode::InvalidFirstTickArrayAccount => 27,
            ErrorCode::InvalidRewardIndex => 28,
            ErrorCode::FullRewardInfo => 29,
            ErrorCode::RewardTokenAlreadyInUse => 30,
            ErrorCode::ExceptPoolVaultMint => 31,
            ErrorCode::InvalidRewardInitParam => 32,
            ErrorCode::InvalidRewardDesiredAmount => 33,
            ErrorCode::InvalidRewardInputAccountNumber => 34,
            ErrorCode::InvalidRewardPeriod => 35,
            ErrorCode::NotApproveUpdateRewardEmissiones => 36,
            ErrorCode::UnInitializedRewardInfo => 37,
            ErrorCode::NotSupportMint => 38,
            ErrorCode::MissingTickArrayBitmapExtensionAccount => 39,
            ErrorCode::InsufficientLiquidityForDirection => 40,
            ErrorCode::MaxTokenOverflow => 41,
            ErrorCode::CalculateOverflow => 42,
            ErrorCode::TransferFeeCalculateNotMatch => 43,
            ErrorCode::MissingBaseFlag => 44,
            ErrorCode::ZeroSqrtPrice => 45,
            ErrorCode::ZeroLiquidity => 46,
        };
        ERROR_CODE_OFFSET + idx
    }
}

/// The failures an instruction reports to the runtime: the runtime's own
/// kinds that this program uses, and `Custom` for an [`ErrorCode`] number.
#[derive(Debug, Clone, Copy, PartialEq, Eq, Structural)]
pub enum ProgramError {
    Custom(u32),
    InvalidArgument,
    InvalidInstructionData,
    InvalidAccountData,
    AccountDataTooSmall,
    IncorrectProgramId,
    MissingRequiredSignature,
    AccountAlreadyInitialized,
    NotEnoughAccountKeys,
}

/// The runtime error that an error code stands for.
pub open spec fn spec_program_error(e: ErrorCode) -> ProgramError {
    ProgramError::Custom((ERROR_CODE_OFFSET + error_code_index(e)) as u32)
}

impl ProgramError {
    /// Wraps an error code as a custom runtime error.
    pub fn from_code(e: ErrorCode) -> (r: ProgramError)
        ensures
            r == spec_program_error(e),
    {
        ProgramError::Custom(e.code())
    }
}

impl From<ErrorCode> for ProgramError {
    fn from(e: ErrorCode) -> (r: ProgramError) {
        ProgramError::from_code(e)
    }
}

impl vstd::std_specs::convert::FromSpecImpl<ErrorCode> for ProgramError {
    open spec fn obeys_from_spec() -> bool {
        true
    }

    open spec fn from_spec(e: ErrorCode) -> ProgramError {
        spec_program_error(e)
    }
}

/// Result of a fallible operation of this program.
pub type Result<T> = core::result::Result<T, ProgramError>;

} // verus!
