use vstd::prelude::*;

verus! {

/// Reasons a program may fail.
#[derive(Debug, Clone, Copy, PartialEq, Eq, Structural)]
pub enum ProgramError {
    /// A program-specific error, carried as its code.
    Custom(u32),
    InvalidArgument,
    InvalidInstructionData,
    InvalidAccountData,
    AccountDataTooSmall,
    InsufficientFunds,
    IncorrectProgramId,
    MissingRequiredSignature,
    AccountAlreadyInitialized,
    UninitializedAccount,
    NotEnoughAccountKeys,
    AccountBorrowFailed,
    MaxSeedLengthExceeded,
    InvalidSeeds,
}

/// Errors of the wrapper program.
#[derive(Debug, Clone, Copy, PartialEq, Eq, Structural)]
pub enum MetamaskError {
    /// The account cannot be initialized because it is already being used.
    AccountAlreadyRegistered,
    /// The token cannot be initialized because it is already being used.
    TokenAlreadyRegistered,
    /// The balance cannot be initialized because it is already being used.
    BalanceAlreadyRegistered,
    /// A transfer names a token that is not registered.
    TokenNotRegistered,
    /// The instruction tag is unknown.
    InvalidInstruction,
    /// The Ethereum transaction of a transfer does not decode.
    EthereumTxInvalidFormat,
    /// The Ethereum transaction of a transfer is not signed by the account.
    EthereumTxSignedWrong,
}

impl MetamaskError {
    /// The error's code: its position among the variants.
    pub open spec fn code_spec(self) -> u32 {
        match self {
            MetamaskError::AccountAlreadyRegistered => 0,
            MetamaskError::TokenAlreadyRegistered => 1,
            MetamaskError::BalanceAlreadyRegistered => 2,
            MetamaskError::TokenNotRegistered => 3,
            MetamaskError::InvalidInstruction => 4,
            MetamaskError::EthereumTxInvalidFormat => 5,
            MetamaskError::EthereumTxSignedWrong => 6,
        }
    }

    pub fn code(&self) -> (r: u32)
        ensures
            r == self.code_spec(),
    {
        match self {
            MetamaskError::AccountAlreadyRegistered => 0,
            MetamaskError::TokenAlreadyRegistered => 1,
            MetamaskError::BalanceAlreadyRegistered => 2,
            MetamaskError::TokenNotRegistered => 3,
            MetamaskError::InvalidInstruction => 4,
            MetamaskError::EthereumTxInvalidFormat => 5,
            MetamaskError::EthereumTxSignedWrong => 6,
        }
    }

    /// The error with the given code, if any: the inverse of `code`.
    pub fn decode_custom_error_to_enum(custom: u32) -> (r: Option<MetamaskError>)
        ensures
            match r {
                Some(e) => e.code_spec() == custom,
                None => custom > 6,
            },
    {
        match custom {
            0 => Some(MetamaskError::AccountAlreadyRegistered),
            1 => Some(MetamaskError::TokenAlreadyRegistered),
            2 => Some(MetamaskError::BalanceAlreadyRegistered),
            3 => Some(MetamaskError::TokenNotRegistered),
            4 => Some(MetamaskError::InvalidInstruction),
            5 => Some(MetamaskError::EthereumTxInvalidFormat),
            6 => Some(MetamaskError::EthereumTxSignedWrong),
            _ => None,
        }
    }
}

impl From<MetamaskError> for ProgramError {
    fn from(e: MetamaskError) -> (r: ProgramError)
        ensures
            r == ProgramError::Custom(e.code_spec()),
    {
        ProgramError::Custom(e.code())
    }
}

impl vstd::std_specs::convert::FromSpecImpl<MetamaskError> for ProgramError {
    open spec fn obeys_from_spec() -> bool {
        true
    }

    open spec fn from_spec(e: MetamaskError) -> ProgramError {
        ProgramError::Custom(e.code_spec())
    }
}

} // verus!
