use vstd::prelude::*;
use crate::codec::{append_bytes, copy_range};
use crate::error::{MetamaskError, ProgramError};

verus! {

/// Instructions of the wrapper program. Keys are 32 bytes, Ethereum
/// addresses 20.
#[derive(Debug)]
pub enum MetamaskInstruction {
    /// Registers an Ethereum account.
    InitializeAccount { eth_acc: Vec<u8>, nonce: u8 },
    /// Registers an Ethereum token for a host token.
    InitializeToken { token: Vec<u8>, eth_token: Vec<u8>, nonce: u8 },
    /// Registers the balance of an Ethereum account in a token.
    InitializeBalance { account: Vec<u8>, eth_token: Vec<u8>, eth_acc: Vec<u8>, nonce: u8 },
    /// Transfers tokens from an Ethereum account's balance.
    Transfer { amount: u64, nonce: u8, eth_token: Vec<u8>, eth_acc: Vec<u8>, eth_tx: Vec<u8> },
    /// Transfers lamports from an Ethereum account.
    TransferLamports { amount: u64, nonce: u8, eth_acc: Vec<u8>, eth_tx: Vec<u8> },
}

/// The eight little-endian bytes of `x`.
pub open spec fn le64(x: u64) -> Seq<u8> {
    seq![
        (x & 0xff) as u8,
        ((x >> 8) & 0xff) as u8,
        ((x >> 16) & 0xff) as u8,
        ((x >> 24) & 0xff) as u8,
        ((x >> 32) & 0xff) as u8,
        ((x >> 40) & 0xff) as u8,
        ((x >> 48) & 0xff) as u8,
        ((x >> 56) & 0xff) as u8,
    ]
}

impl MetamaskInstruction {
    pub open spec fn wf(self) -> bool {
        match self {
            MetamaskInstruction::InitializeAccount { eth_acc, .. } => eth_acc@.len() == 20,
            MetamaskInstruction::InitializeToken { token, eth_token, .. } => token@.len() == 32
                && eth_token@.len() == 20,
            MetamaskInstruction::InitializeBalance { account, eth_token, eth_acc, .. } =>
                account@.len() == 32 && eth_token@.len() == 20 && eth_acc@.len() == 20,
            MetamaskInstruction::Transfer { eth_token, eth_acc, .. } => eth_token@.len() == 20
                && eth_acc@.len() == 20,
            MetamaskInstruction::TransferLamports { eth_acc, .. } => eth_acc@.len() == 20,
        }
    }

    /// The bytes of an instruction: a tag, then the fields in order,
    /// the amount little-endian.
    pub open spec fn encoding(self) -> Seq<u8> {
        match self {
            MetamaskInstruction::InitializeAccount { eth_acc, nonce } => seq![0u8] + eth_acc@
                + seq![nonce],
            MetamaskInstruction::InitializeToken { token, eth_token, nonce } => seq![1u8] + token@
                + eth_token@ + seq![nonce],
            MetamaskInstruction::InitializeBalance { account, eth_token, eth_acc, nonce } => seq![
                2u8,
            ] + account@ + eth_token@ + eth_acc@ + seq![nonce],
            MetamaskInstruction::Transfer { amount, nonce, eth_token, eth_acc, eth_tx } => seq![
                3u8,
            ] + le64(amount) + seq![nonce] + eth_token@ + eth_acc@ + eth_tx@,
            MetamaskInstruction::TransferLamports { amount, nonce, eth_acc, eth_tx } => seq![4u8]
                + le64(amount) + seq![nonce] + eth_acc@ + eth_tx@,
        }
    }
}

/// The shortest input that an instruction with tag `tag` is read from.
pub open spec fn min_len(tag: u8) -> nat {
    if tag == 0 {
        22
    } else if tag == 1 {
        54
    } else if tag == 2 {
        74
    } else if tag == 3 {
        50
    } else {
        30
    }
}

proof fn lemma_le64_bytes(t: Seq<u8>)
    requires
        t.len() == 8,
    ensures
        le64(
            (t[0] as u64) | ((t[1] as u64) << 8) | ((t[2] as u64) << 16) | ((t[3] as u64) << 24) | ((
            t[4] as u64) << 32) | ((t[5] as u64) << 40) | ((t[6] as u64) << 48) | ((t[7] as u64)
                << 56),
        ) == t,
{
    let (b0, b1, b2, b3, b4, b5, b6, b7) = (t[0], t[1], t[2], t[3], t[4], t[5], t[6], t[7]);
    let x = (b0 as u64) | ((b1 as u64) << 8) | ((b2 as u64) << 16) | ((b3 as u64) << 24) | ((
    b4 as u64) << 32) | ((b5 as u64) << 40) | ((b6 as u64) << 48) | ((b7 as u64) << 56);
    assert(((x & 0xff) as u8) == b0 && (((x >> 8) & 0xff) as u8) == b1 && (((x >> 16) & 0xff) as u8)
        == b2 && (((x >> 24) & 0xff) as u8) == b3 && (((x >> 32) & 0xff) as u8) == b4 && (((x
        >> 40) & 0xff) as u8) == b5 && (((x >> 48) & 0xff) as u8) == b6 && (((x >> 56) & 0xff) as u8)
        == b7) by (bit_vector)
        requires
            x == (b0 as u64) | ((b1 as u64) << 8) | ((b2 as u64) << 16) | ((b3 as u64) << 24) | ((
            b4 as u64) << 32) | ((b5 as u64) << 40) | ((b6 as u64) << 48) | ((b7 as u64) << 56),
    ;
    assert(le64(x) =~= t);
}

fn read_le64(input: &[u8], pos: usize) -> (r: u64)
    requires
        pos + 8 <= input@.len(),
    ensures
        le64(r) == input@.subrange(pos as int, pos + 8),
{
    let r = (input[pos] as u64) | ((input[pos + 1] as u64) << 8) | ((input[pos + 2] as u64) << 16)
        | ((input[pos + 3] as u64) << 24) | ((input[pos + 4] as u64) << 32) | ((input[pos
        + 5] as u64) << 40) | ((input[pos + 6] as u64) << 48) | ((input[pos + 7] as u64) << 56);
    proof {
        lemma_le64_bytes(input@.subrange(pos as int, pos + 8));
    }
    r
}

fn push_le64(out: &mut Vec<u8>, x: u64)
    ensures
        final(out)@ == old(out)@ + le64(x),
{
    proof {
        assert(x & 0xff <= 0xff && (x >> 8) & 0xff <= 0xff && (x >> 16) & 0xff <= 0xff && (x
            >> 24) & 0xff <= 0xff && (x >> 32) & 0xff <= 0xff && (x >> 40) & 0xff <= 0xff && (x
            >> 48) & 0xff <= 0xff && (x >> 56) & 0xff <= 0xff) by (bit_vector);
    }
    out.push((x & 0xff) as u8);
    out.push(((x >> 8) & 0xff) as u8);
    out.push(((x >> 16) & 0xff) as u8);
    out.push(((x >> 24) & 0xff) as u8);
    out.push(((x >> 32) & 0xff) as u8);
    out.push(((x >> 40) & 0xff) as u8);
    out.push(((x >> 48) & 0xff) as u8);
    out.push(((x >> 56) & 0xff) as u8);
    proof {
        assert(final(out)@ =~= old(out)@ + le64(x));
    }
}

fn invalid_instruction() -> (r: ProgramError)
    ensures
        r == ProgramError::Custom(MetamaskError::InvalidInstruction.code_spec()),
{
    ProgramError::from(MetamaskError::InvalidInstruction)
}

impl MetamaskInstruction {
    /// Reads an instruction from `input`: the fields of the first three
    /// kinds take a fixed length (bytes after them are ignored), the
    /// Ethereum transaction of the transfers is the rest of the input.
    /// An empty input, an unknown tag or too few bytes is
    /// `InvalidInstruction`.
    pub fn unpack(input: &[u8]) -> (r: Result<MetamaskInstruction, ProgramError>)
        ensures
            match r {
                Ok(ins) => {
                    &&& input@.len() >= 1
                    &&& input@[0] <= 4
                    &&& input@.len() >= min_len(input@[0])
                    &&& ins.wf()
                    &&& input@.subrange(0, ins.encoding().len() as int) == ins.encoding()
                    &&& (input@[0] >= 3 ==> ins.encoding().len() == input@.len())
                },
                Err(e) => {
                    &&& e == ProgramError::Custom(MetamaskError::InvalidInstruction.code_spec())
                    &&& (input@.len() == 0 || input@[0] > 4 || input@.len() < min_len(input@[0]))
                },
            },
    {
        if input.len() == 0 {
            return Err(invalid_instruction());
        }
        let tag = input[0];
        let ghost s = input@;
        if tag == 0 {
            if input.len() < 22 {
                return Err(invalid_instruction());
            }
            let eth_acc = copy_range(input, 1, 21);
            let ins = MetamaskInstruction::InitializeAccount { eth_acc, nonce: input[21] };
            proof {
                assert(s.subrange(0, 22) =~= ins.encoding());
            }
            Ok(ins)
        } else if tag == 1 {
            if input.len() < 54 {
                return Err(invalid_instruction());
            }
            let token = copy_range(input, 1, 33);
            let eth_token = copy_range(input, 33, 53);
            let ins = MetamaskInstruction::InitializeToken { token, eth_token, nonce: input[53] };
            proof {
                assert(s.subrange(0, 54) =~= ins.encoding());
            }
            Ok(ins)
        } else if tag == 2 {
            if input.len() < 74 {
                return Err(invalid_instruction());
            }
            let account = copy_range(input, 1, 33);
            let eth_token = copy_range(input, 33, 53);
            let eth_acc = copy_range(input, 53, 73);
            let ins = MetamaskInstruction::InitializeBalance { account, eth_token, eth_acc, nonce: input[73] };
            proof {
                assert(s.subrange(0, 74) =~= ins.encoding());
            }
            Ok(ins)
        } else if tag == 3 {
            if input.len() < 50 {
                return Err(invalid_instruction());
            }
            let amount = read_le64(input, 1);
            let eth_token = copy_range(input, 10, 30);
            let eth_acc = copy_range(input, 30, 50);
            let eth_tx = copy_range(input, 50, input.len());
            let ins = MetamaskInstruction::Transfer { amount, nonce: input[9], eth_token, eth_acc, eth_tx };
            proof {
                assert(s.subrange(0, s.len() as int) =~= ins.encoding());
            }
            Ok(ins)
        } else if tag == 4 {
            if input.len() < 30 {
                return Err(invalid_instruction());
            }
            let amount = read_le64(input, 1);
            let eth_acc = copy_range(input, 10, 30);
            let eth_tx = copy_range(input, 30, input.len());
            let ins = MetamaskInstruction::TransferLamports { amount, nonce: input[9], eth_acc, eth_tx };
            proof {
                assert(s.subrange(0, s.len() as int) =~= ins.encoding());
            }
            Ok(ins)
        } else {
            Err(invalid_instruction())
        }
    }

    /// Writes the instruction's bytes.
    pub fn pack(&self) -> (r: Vec<u8>)
        ensures
            r@ == self.encoding(),
    {
        let mut buf: Vec<u8> = Vec::new();
        match self {
            MetamaskInstruction::InitializeAccount { eth_acc, nonce } => {
                buf.push(0);
                append_bytes(&mut buf, eth_acc);
                buf.push(*nonce);
            },
            MetamaskInstruction::InitializeToken { token, eth_token, nonce } => {
                buf.push(1);
                append_bytes(&mut buf, token);
                append_bytes(&mut buf, eth_token);
                buf.push(*nonce);
            },
            MetamaskInstruction::InitializeBalance { account, eth_token, eth_acc, nonce } => {
                buf.push(2);
                append_bytes(&mut buf, account);
                append_bytes(&mut buf, eth_token);
                append_bytes(&mut buf, eth_acc);
                buf.push(*nonce);
            },
            MetamaskInstruction::Transfer { amount, nonce, eth_token, eth_acc, eth_tx } => {
                buf.push(3);
                push_le64(&mut buf, *amount);
                buf.push(*nonce);
                append_bytes(&mut buf, eth_token);
                append_bytes(&mut buf, eth_acc);
                append_bytes(&mut buf, eth_tx);
            },
            MetamaskInstruction::TransferLamports { amount, nonce, eth_acc, eth_tx } => {
                buf.push(4);
                push_le64(&mut buf, *amount);
                buf.push(*nonce);
                append_bytes(&mut buf, eth_acc);
                append_bytes(&mut buf, eth_tx);
            },
        }
        proof {
            assert(buf@ =~= self.encoding());
        }
        buf
    }
}

} // verus!
