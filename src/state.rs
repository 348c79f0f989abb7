use vstd::prelude::*;
use crate::error::ProgramError;

verus! {

/// The four little-endian bytes of `x`.
pub open spec fn le32(x: u32) -> Seq<u8> {
    seq![
        (x & 0xff) as u8,
        ((x >> 8) & 0xff) as u8,
        ((x >> 16) & 0xff) as u8,
        ((x >> 24) & 0xff) as u8,
    ]
}

/// The number whose little-endian bytes are the four of `b`.
pub open spec fn le32_value(b: Seq<u8>) -> u32 {
    (b[0] as u32) | ((b[1] as u32) << 8) | ((b[2] as u32) << 16) | ((b[3] as u32) << 24)
}

proof fn lemma_le32(x: u32)
    ensures
        le32_value(le32(x)) == x,
{
    let b0 = (x & 0xff) as u8;
    let b1 = ((x >> 8) & 0xff) as u8;
    let b2 = ((x >> 16) & 0xff) as u8;
    let b3 = ((x >> 24) & 0xff) as u8;
    assert((b0 as u32) == (x & 0xff)) by (bit_vector)
        requires
            b0 == (x & 0xff) as u8,
    ;
    assert((b1 as u32) == ((x >> 8) & 0xff)) by (bit_vector)
        requires
            b1 == ((x >> 8) & 0xff) as u8,
    ;
    assert((b2 as u32) == ((x >> 16) & 0xff)) by (bit_vector)
        requires
            b2 == ((x >> 16) & 0xff) as u8,
    ;
    assert((b3 as u32) == ((x >> 24) & 0xff)) by (bit_vector)
        requires
            b3 == ((x >> 24) & 0xff) as u8,
    ;
    assert(((x & 0xff) | (((x >> 8) & 0xff) << 8) | (((x >> 16) & 0xff) << 16) | (((x >> 24)
        & 0xff) << 24)) == x) by (bit_vector);
}

/// Record of an Ethereum account: its address and transaction count.
#[derive(Debug, Clone, Copy)]
pub struct AccountInfo {
    pub eth_acc: [u8; 20],
    pub trx_count: u32,
}

/// The 24 bytes of an account record: the address, then the count,
/// little-endian.
pub open spec fn account_info_bytes(a: AccountInfo) -> Seq<u8> {
    a.eth_acc@ + le32(a.trx_count)
}

impl AccountInfo {
    pub const LEN: usize = 24;

    /// A record counts as initialized while its count is zero.
    pub fn is_initialized(&self) -> (r: bool)
        ensures
            r == (self.trx_count == 0),
    {
        self.trx_count == 0
    }

    /// Reads a record from the first 24 bytes of `src`.
    pub fn unpack_from_slice(src: &[u8]) -> (r: Result<AccountInfo, ProgramError>)
        ensures
            match r {
                Ok(a) => src@.len() >= 24 && account_info_bytes(a) == src@.subrange(0, 24),
                Err(e) => src@.len() < 24 && e == ProgramError::InvalidAccountData,
            },
    {
        if src.len() < 24 {
            return Err(ProgramError::InvalidAccountData);
        }
        let mut eth_acc = [0u8; 20];
        let mut i: usize = 0;
        while i < 20
            invariant
                src@.len() >= 24,
                i <= 20,
                forall|k: int| 0 <= k < i ==> eth_acc@[k] == src@[k],
            decreases 20 - i,
        {
            eth_acc[i] = src[i];
            i = i + 1;
        }
        let trx_count: u32 = (src[20] as u32) | ((src[21] as u32) << 8) | ((src[22] as u32) << 16) | ((src[23] as u32) << 24);
        let a = AccountInfo { eth_acc, trx_count };
        proof {
            let t = src@.subrange(20, 24);
            assert(trx_count == le32_value(t));
            lemma_le32_bytes(t);
            assert(account_info_bytes(a) =~= src@.subrange(0, 24));
        }
        Ok(a)
    }

    /// Writes the record into the first 24 bytes of `dst`.
    pub fn pack_into_slice(&self, dst: &mut Vec<u8>)
        requires
            old(dst)@.len() >= 24,
        ensures
            final(dst)@ == account_info_bytes(*self) + old(dst)@.subrange(24, old(dst)@.len() as int),
    {
        let mut i: usize = 0;
        while i < 20
            invariant
                dst@.len() == old(dst)@.len(),
                old(dst)@.len() >= 24,
                i <= 20,
                forall|k: int| 0 <= k < i ==> dst@[k] == self.eth_acc@[k],
                forall|k: int| 24 <= k < dst@.len() ==> dst@[k] == old(dst)@[k],
            decreases 20 - i,
        {
            dst.set(i, self.eth_acc[i]);
            i = i + 1;
        }
        let x = self.trx_count;
        proof {
            assert(x & 0xff <= 0xff && (x >> 8) & 0xff <= 0xff && (x >> 16) & 0xff <= 0xff && (x
                >> 24) & 0xff <= 0xff) by (bit_vector);
        }
        dst.set(20, (x & 0xff) as u8);
        dst.set(21, ((x >> 8) & 0xff) as u8);
        dst.set(22, ((x >> 16) & 0xff) as u8);
        dst.set(23, ((x >> 24) & 0xff) as u8);
        proof {
            assert(final(dst)@ =~= account_info_bytes(*self) + old(dst)@.subrange(
                24,
                old(dst)@.len() as int,
            ));
        }
    }
}

proof fn lemma_le32_bytes(t: Seq<u8>)
    requires
        t.len() == 4,
    ensures
        le32(le32_value(t)) == t,
{
    let b0 = t[0];
    let b1 = t[1];
    let b2 = t[2];
    let b3 = t[3];
    let x = le32_value(t);
    assert(((x & 0xff) as u8) == b0 && (((x >> 8) & 0xff) as u8) == b1 && (((x >> 16) & 0xff) as u8)
        == b2 && (((x >> 24) & 0xff) as u8) == b3) by (bit_vector)
        requires
            x == (b0 as u32) | ((b1 as u32) << 8) | ((b2 as u32) << 16) | ((b3 as u32) << 24),
    ;
    assert(le32(x) =~= t);
}

/// Packing a record and unpacking it gives the record back.
pub proof fn lemma_account_info_round_trip(a: AccountInfo, rest: Seq<u8>)
    ensures
        ({
            let s = account_info_bytes(a) + rest;
            &&& s.len() >= 24
            &&& s.subrange(0, 24) == account_info_bytes(a)
            &&& forall|b: AccountInfo|
                account_info_bytes(b) == s.subrange(0, 24) ==> b == a
        }),
{
    let s = account_info_bytes(a) + rest;
    assert(s.subrange(0, 24) =~= account_info_bytes(a));
    assert forall|b: AccountInfo| account_info_bytes(b) == s.subrange(0, 24) implies b == a by {
        assert(b.eth_acc@ =~= account_info_bytes(b).subrange(0, 20));
        assert(a.eth_acc@ =~= account_info_bytes(a).subrange(0, 20));
        assert(b.eth_acc@ == a.eth_acc@);
        assert(le32(b.trx_count) =~= account_info_bytes(b).subrange(20, 24));
        assert(le32(a.trx_count) =~= account_info_bytes(a).subrange(20, 24));
        lemma_le32(a.trx_count);
        lemma_le32(b.trx_count);
        assert(b.eth_acc == a.eth_acc);
    }
}

fn read20(src: &[u8], off: usize) -> (r: [u8; 20])
    requires
        off + 20 <= src@.len(),
    ensures
        r@ == src@.subrange(off as int, off + 20),
{
    let mut a = [0u8; 20];
    let mut i: usize = 0;
    while i < 20
        invariant
            off + 20 <= src.len(),
            i <= 20,
            forall|k: int| 0 <= k < i ==> a@[k] == src@[off + k],
        decreases 20 - i,
    {
        a[i] = src[off + i];
        i = i + 1;
    }
    proof {
        assert(a@ =~= src@.subrange(off as int, off + 20));
    }
    a
}

fn read32(src: &[u8], off: usize) -> (r: [u8; 32])
    requires
        off + 32 <= src@.len(),
    ensures
        r@ == src@.subrange(off as int, off + 32),
{
    let mut a = [0u8; 32];
    let mut i: usize = 0;
    while i < 32
        invariant
            off + 32 <= src.len(),
            i <= 32,
            forall|k: int| 0 <= k < i ==> a@[k] == src@[off + k],
        decreases 32 - i,
    {
        a[i] = src[off + i];
        i = i + 1;
    }
    proof {
        assert(a@ =~= src@.subrange(off as int, off + 32));
    }
    a
}

/// Writes `b` into `dst` at `off`.
fn write_at(dst: &mut Vec<u8>, off: usize, b: &[u8])
    requires
        off + b@.len() <= old(dst)@.len(),
    ensures
        final(dst)@ == old(dst)@.subrange(0, off as int) + b@ + old(dst)@.subrange(
            off + b@.len(),
            old(dst)@.len() as int,
        ),
{
    let mut i: usize = 0;
    while i < b.len()
        invariant
            dst@.len() == old(dst)@.len(),
            off + b.len() <= dst.len(),
            i <= b@.len(),
            forall|k: int| 0 <= k < off ==> dst@[k] == old(dst)@[k],
            forall|k: int| 0 <= k < i ==> dst@[off + k] == b@[k],
            forall|k: int| off + b@.len() <= k < dst@.len() ==> dst@[k] == old(dst)@[k],
        decreases b@.len() - i,
    {
        dst.set(off + i, b[i]);
        i = i + 1;
    }
    proof {
        assert(final(dst)@ =~= old(dst)@.subrange(0, off as int) + b@ + old(dst)@.subrange(
            off + b@.len(),
            old(dst)@.len() as int,
        ));
    }
}

fn is_all_zero(b: &[u8; 32]) -> (r: bool)
    ensures
        r == (b@ == Seq::new(32, |i: int| 0u8)),
{
    let mut i: usize = 0;
    while i < 32
        invariant
            i <= 32,
            forall|k: int| 0 <= k < i ==> b@[k] == 0,
        decreases 32 - i,
    {
        if b[i] != 0 {
            return false;
        }
        i = i + 1;
    }
    proof {
        assert(b@ =~= Seq::new(32, |i: int| 0u8));
    }
    true
}

/// Record of a registered token: the host token and its Ethereum address.
#[derive(Debug, Clone, Copy)]
pub struct TokenInfo {
    pub token: [u8; 32],
    pub eth_token: [u8; 20],
}

impl TokenInfo {
    pub const LEN: usize = 52;

    pub open spec fn bytes(self) -> Seq<u8> {
        self.token@ + self.eth_token@
    }

    /// A record is initialized once its token is not all zero.
    pub fn is_initialized(&self) -> (r: bool)
        ensures
            r == (self.token@ != Seq::new(32, |i: int| 0u8)),
    {
        !is_all_zero(&self.token)
    }

    pub fn unpack_from_slice(src: &[u8]) -> (r: Result<TokenInfo, ProgramError>)
        ensures
            match r {
                Ok(t) => src@.len() >= 52 && t.bytes() == src@.subrange(0, 52),
                Err(e) => src@.len() < 52 && e == ProgramError::InvalidAccountData,
            },
    {
        if src.len() < 52 {
            return Err(ProgramError::InvalidAccountData);
        }
        let t = TokenInfo { token: read32(src, 0), eth_token: read20(src, 32) };
        proof {
            assert(t.bytes() =~= src@.subrange(0, 52));
        }
        Ok(t)
    }

    pub fn pack_into_slice(&self, dst: &mut Vec<u8>)
        requires
            old(dst)@.len() >= 52,
        ensures
            final(dst)@ == self.bytes() + old(dst)@.subrange(52, old(dst)@.len() as int),
    {
        write_at(dst, 0, self.token.as_slice());
        write_at(dst, 32, self.eth_token.as_slice());
        proof {
            assert(final(dst)@ =~= self.bytes() + old(dst)@.subrange(52, old(dst)@.len() as int));
        }
    }
}

/// Record of an Ethereum account's balance in a token.
#[derive(Debug, Clone, Copy)]
pub struct BalanceInfo {
    pub account: [u8; 32],
    pub eth_token: [u8; 20],
    pub eth_acc: [u8; 20],
}

impl BalanceInfo {
    pub const LEN: usize = 72;

    pub open spec fn bytes(self) -> Seq<u8> {
        self.account@ + self.eth_token@ + self.eth_acc@
    }

    /// A record is initialized once its account is not all zero.
    pub fn is_initialized(&self) -> (r: bool)
        ensures
            r == (self.account@ != Seq::new(32, |i: int| 0u8)),
    {
        !is_all_zero(&self.account)
    }

    pub fn unpack_from_slice(src: &[u8]) -> (r: Result<BalanceInfo, ProgramError>)
        ensures
            match r {
                Ok(t) => src@.len() >= 72 && t.bytes() == src@.subrange(0, 72),
                Err(e) => src@.len() < 72 && e == ProgramError::InvalidAccountData,
            },
    {
        if src.len() < 72 {
            return Err(ProgramError::InvalidAccountData);
        }
        let t = BalanceInfo { account: read32(src, 0), eth_token: read20(src, 32), eth_acc: read20(src, 52) };
        proof {
            assert(t.bytes() =~= src@.subrange(0, 72));
        }
        Ok(t)
    }

    pub fn pack_into_slice(&self, dst: &mut Vec<u8>)
        requires
            old(dst)@.len() >= 72,
        ensures
            final(dst)@ == self.bytes() + old(dst)@.subrange(72, old(dst)@.len() as int),
    {
        write_at(dst, 0, self.account.as_slice());
        write_at(dst, 32, self.eth_token.as_slice());
        write_at(dst, 52, self.eth_acc.as_slice());
        proof {
            assert(final(dst)@ =~= self.bytes() + old(dst)@.subrange(72, old(dst)@.len() as int));
        }
    }
}

} // verus!
