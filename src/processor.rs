use vstd::prelude::*;
use crate::error::{MetamaskError, ProgramError};
use crate::state::{AccountInfo, TokenInfo, BalanceInfo};
use crate::transaction::{SignedTransaction, decode_signed_spec, max_data_len};
use crate::signature::{get_tx_sender, sender_spec};
use crate::backend::bytes_eq;

verus! {

pub open spec fn custom(e: MetamaskError) -> ProgramError {
    ProgramError::Custom(e.code_spec())
}

pub open spec fn zero_key() -> Seq<u8> {
    Seq::new(32, |i: int| 0u8)
}

/// Whether the transfer that `eth_tx` carries may move funds of `eth_acc`:
/// the transaction decodes, and its sender is recovered and is `eth_acc`.
pub open spec fn transfer_check(eth_tx: Seq<u8>, eth_acc: Seq<u8>) -> Result<(), ProgramError> {
    match decode_signed_spec(eth_tx) {
        Err(_) => Err(custom(MetamaskError::EthereumTxInvalidFormat)),
        Ok(v) => if v.tx.data.len() > max_data_len() {
            Err(custom(MetamaskError::EthereumTxInvalidFormat))
        } else {
            match sender_spec(v) {
                Ok(a) => if a == eth_acc {
                    Ok(())
                } else {
                    Err(custom(MetamaskError::EthereumTxSignedWrong))
                },
                Err(_) => Err(custom(MetamaskError::EthereumTxSignedWrong)),
            }
        },
    }
}

/// Whether a lamports transfer that `eth_tx` carries goes ahead: the
/// transaction decodes, its sender is recovered, and the sender is not the
/// address of twenty 0x02 bytes, which is refused.
pub open spec fn lamports_check(eth_tx: Seq<u8>) -> Result<(), ProgramError> {
    match decode_signed_spec(eth_tx) {
        Err(_) => Err(custom(MetamaskError::EthereumTxInvalidFormat)),
        Ok(v) => if v.tx.data.len() > max_data_len() {
            Err(custom(MetamaskError::EthereumTxInvalidFormat))
        } else {
            match sender_spec(v) {
                Ok(a) => if a == Seq::new(20, |i: int| 0x02u8) {
                    Err(custom(MetamaskError::EthereumTxSignedWrong))
                } else {
                    Ok(())
                },
                Err(_) => Err(custom(MetamaskError::EthereumTxSignedWrong)),
            }
        },
    }
}

/// The decisions of the wrapper program; the host work around them
/// (creating accounts, reading and writing their data, invoking the token
/// program) is done by its caller.
pub struct Processor {}

impl Processor {
    /// The record that registering `eth_acc` writes over `current`; refused
    /// while `current` already counts transactions.
    pub fn initialize_account_record(current: &AccountInfo, eth_acc: [u8; 20]) -> (r: Result<
        AccountInfo,
        ProgramError,
    >)
        ensures
            current.trx_count != 0 ==> r == Result::<AccountInfo, ProgramError>::Err(
                custom(MetamaskError::AccountAlreadyRegistered),
            ),
            current.trx_count == 0 ==> (r matches Ok(a) && a.eth_acc == eth_acc && a.trx_count == 1),
    {
        if current.trx_count != 0 {
            return Err(ProgramError::from(MetamaskError::AccountAlreadyRegistered));
        }
        Ok(AccountInfo { eth_acc, trx_count: 1 })
    }

    /// The record that registering `eth_token` for `token` writes over
    /// `current`; refused once `current` names a token.
    pub fn initialize_token_record(current: &TokenInfo, token: [u8; 32], eth_token: [u8; 20]) -> (r:
        Result<TokenInfo, ProgramError>)
        ensures
            current.token@ != zero_key() ==> r == Result::<TokenInfo, ProgramError>::Err(
                custom(MetamaskError::TokenAlreadyRegistered),
            ),
            current.token@ == zero_key() ==> (r matches Ok(t) && t.token == token && t.eth_token
                == eth_token),
    {
        if current.is_initialized() {
            return Err(ProgramError::from(MetamaskError::TokenAlreadyRegistered));
        }
        Ok(TokenInfo { token, eth_token })
    }

    /// The record that registering the balance of `eth_acc` in `eth_token`
    /// held by `account` writes over `current`; refused once `current` names
    /// an account.
    pub fn initialize_balance_record(
        current: &BalanceInfo,
        account: [u8; 32],
        eth_token: [u8; 20],
        eth_acc: [u8; 20],
    ) -> (r: Result<BalanceInfo, ProgramError>)
        ensures
            current.account@ != zero_key() ==> r == Result::<BalanceInfo, ProgramError>::Err(
                custom(MetamaskError::BalanceAlreadyRegistered),
            ),
            current.account@ == zero_key() ==> (r matches Ok(b) && b.account == account
                && b.eth_token == eth_token && b.eth_acc == eth_acc),
    {
        if current.is_initialized() {
            return Err(ProgramError::from(MetamaskError::BalanceAlreadyRegistered));
        }
        Ok(BalanceInfo { account, eth_token, eth_acc })
    }

    /// Checks that the Ethereum transaction of a transfer is signed by
    /// `eth_acc`.
    pub fn check_transfer(eth_tx: &[u8], eth_acc: &Vec<u8>) -> (r: Result<(), ProgramError>)
        ensures
            r == transfer_check(eth_tx@, eth_acc@),
    {
        let tx = match SignedTransaction::decode(eth_tx) {
            Ok(t) => t,
            Err(_) => return Err(ProgramError::from(MetamaskError::EthereumTxInvalidFormat)),
        };
        if tx.transaction.data.0.len() > 0xffff_ffff {
            return Err(ProgramError::from(MetamaskError::EthereumTxInvalidFormat));
        }
        match get_tx_sender(&tx) {
            Ok(a) => {
                if bytes_eq(&a, eth_acc) {
                    Ok(())
                } else {
                    Err(ProgramError::from(MetamaskError::EthereumTxSignedWrong))
                }
            },
            Err(_) => Err(ProgramError::from(MetamaskError::EthereumTxSignedWrong)),
        }
    }

    /// Checks the Ethereum transaction of a lamports transfer.
    pub fn check_transfer_lamports(eth_tx: &[u8]) -> (r: Result<(), ProgramError>)
        ensures
            r == lamports_check(eth_tx@),
    {
        let tx = match SignedTransaction::decode(eth_tx) {
            Ok(t) => t,
            Err(_) => return Err(ProgramError::from(MetamaskError::EthereumTxInvalidFormat)),
        };
        if tx.transaction.data.0.len() > 0xffff_ffff {
            return Err(ProgramError::from(MetamaskError::EthereumTxInvalidFormat));
        }
        match get_tx_sender(&tx) {
            Ok(a) => {
                let refused: Vec<u8> = vec![0x02u8; 20];
                proof {
                    assert(refused@ =~= Seq::new(20, |i: int| 0x02u8));
                }
                if bytes_eq(&a, &refused) {
                    Err(ProgramError::from(MetamaskError::EthereumTxSignedWrong))
                } else {
                    Ok(())
                }
            },
            Err(_) => Err(ProgramError::from(MetamaskError::EthereumTxSignedWrong)),
        }
    }
}

} // verus!
