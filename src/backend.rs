use vstd::prelude::*;
use crate::word::{U256, zeros};
use crate::error::ProgramError;
use crate::external::{
    base58, base58_of, create_with_seed, seed_derived_key, keccak256, keccak256_of, utf8_decode,
    utf8_text,
};
use crate::codec::copy_range;

verus! {

/// One storage write: a 256-bit key and value.
#[derive(Debug)]
pub struct StorageEntry {
    pub key: U256,
    pub value: U256,
}

/// The contract data that a host account holds.
#[derive(Debug)]
pub struct AccountData {
    /// The foreign (20-byte) address the account stands for.
    pub ether: Vec<u8>,
    /// The bump nonce of the account's derived signing key.
    pub nonce: u8,
    pub trx_count: u64,
    pub signer: Vec<u8>,
    pub code: Vec<u8>,
    /// Storage writes in order; a later write to a key replaces an earlier.
    pub storage: Vec<StorageEntry>,
}

/// A host-chain account as the host hands it over.
#[derive(Debug)]
pub struct HostAccount {
    pub key: Vec<u8>,
    pub owner: Vec<u8>,
    pub lamports: u64,
    /// The contract data, where the account holds any.
    pub data: Option<AccountData>,
}

/// A cached account: the host account that stands for a foreign address.
#[derive(Debug)]
pub struct Account {
    pub address: Vec<u8>,
    pub host_key: Vec<u8>,
    pub lamports: u64,
    pub data: AccountData,
}

/// Where accounts come from: only the invocation's account list, or a
/// lookup by derived key from a base key.
#[derive(Debug)]
pub enum Mode {
    OnChain,
    Emulator { base: Vec<u8> },
}

/// Balance and nonce of an account.
#[derive(Debug, Clone, Copy, PartialEq, Eq, Structural)]
pub struct Basic {
    pub balance: u64,
    pub nonce: u64,
}

/// The host interface that the EVM engine runs against.
#[derive(Debug)]
pub struct SolanaBackend {
    pub accounts: Vec<Account>,
    /// Foreign addresses looked up and found to have no usable host account.
    pub new_accounts: Vec<Vec<u8>>,
    /// Keys of the host accounts visible to this invocation.
    pub host_keys: Vec<Vec<u8>>,
    pub mode: Mode,
    pub program_id: Vec<u8>,
    pub contract_id: Vec<u8>,
    pub caller_id: Vec<u8>,
    pub block_number: u64,
    pub block_timestamp: i64,
}

/// The storage map that a sequence of writes leaves, later writes winning.
pub open spec fn storage_map(s: Seq<StorageEntry>) -> Map<Seq<u8>, Seq<u8>>
    decreases s.len(),
{
    if s.len() == 0 {
        Map::empty()
    } else {
        storage_map(s.drop_last()).insert(s.last().key.be@, s.last().value.be@)
    }
}

/// The value stored under `key`: zero where nothing was written.
pub open spec fn storage_value(s: Seq<StorageEntry>, key: Seq<u8>) -> Seq<u8> {
    if storage_map(s).contains_key(key) {
        storage_map(s)[key]
    } else {
        zeros(32)
    }
}

impl AccountData {
    pub open spec fn wf(self) -> bool {
        &&& self.ether@.len() == 20
        &&& self.signer@.len() == 32
        &&& forall|i: int|
            0 <= i < self.storage@.len() ==> (#[trigger] self.storage@[i]).key.wf()
                && self.storage@[i].value.wf()
    }
}

impl Account {
    pub open spec fn wf(self) -> bool {
        &&& self.address@.len() == 20
        &&& self.host_key@.len() == 32
        &&& self.data.wf()
    }
}

/// The foreign address used for calls into host programs, and as the
/// default contract and caller: 0xff then 19 zero bytes.
pub open spec fn system_address() -> Seq<u8> {
    seq![0xffu8] + zeros(19)
}

/// A host account with well-formed contract data.
pub open spec fn usable(h: Option<HostAccount>) -> bool {
    h matches Some(x) && x.data matches Some(d) && d.wf()
}

impl SolanaBackend {
    pub open spec fn wf(self) -> bool {
        &&& self.program_id@.len() == 32
        &&& self.contract_id@.len() == 20
        &&& self.caller_id@.len() == 20
        &&& (self.mode matches Mode::Emulator { base } ==> base@.len() == 32)
        &&& forall|i: int| 0 <= i < self.accounts@.len() ==> (#[trigger] self.accounts@[i]).wf()
        &&& forall|i: int, j: int|
            0 <= i < j < self.accounts@.len() ==> (#[trigger] self.accounts@[i]).address@
                != (#[trigger] self.accounts@[j]).address@
        &&& forall|i: int|
            0 <= i < self.new_accounts@.len() ==> (#[trigger] self.new_accounts@[i])@.len() == 20
    }

    pub open spec fn cached(self, a: Seq<u8>) -> bool {
        exists|i: int| 0 <= i < self.accounts@.len() && (#[trigger] self.accounts@[i]).address@ == a
    }

    /// The cache position of the account for `a`, where it is cached.
    pub open spec fn index_of(self, a: Seq<u8>) -> int {
        choose|i: int| 0 <= i < self.accounts@.len() && (#[trigger] self.accounts@[i]).address@ == a
    }

    pub open spec fn account(self, a: Seq<u8>) -> Account {
        self.accounts@[self.index_of(a)]
    }

    pub open spec fn known_new(self, a: Seq<u8>) -> bool {
        exists|i: int| 0 <= i < self.new_accounts@.len() && (#[trigger] self.new_accounts@[i])@ == a
    }

    /// Nothing is left to find out about `a`: it is cached, known to be
    /// absent, or there is nowhere to look it up.
    pub open spec fn resolved(self, a: Seq<u8>) -> bool {
        self.mode is OnChain || self.cached(a) || self.known_new(a)
    }

    /// The host key that a lookup of `a` goes to.
    pub open spec fn derived_key(self, a: Seq<u8>) -> Option<Seq<u8>> {
        match self.mode {
            Mode::Emulator { base } => seed_derived_key(base@, base58_of(a), self.program_id@),
            Mode::OnChain => None,
        }
    }

    /// `new` equals `old` but for the cache and the set of absent addresses.
    pub open spec fn same_context(self, old: SolanaBackend) -> bool {
        &&& self.host_keys == old.host_keys
        &&& self.mode == old.mode
        &&& self.program_id == old.program_id
        &&& self.contract_id == old.contract_id
        &&& self.caller_id == old.caller_id
        &&& self.block_number == old.block_number
        &&& self.block_timestamp == old.block_timestamp
    }

    /// Only the cache and the set of absent addresses differ from `old`, and
    /// every account cached in `old` is still there, unchanged.
    pub open spec fn grows(self, old: SolanaBackend) -> bool {
        &&& self.same_context(old)
        &&& forall|x: Seq<u8>|
            #[trigger] old.cached(x) ==> self.cached(x) && self.account(x) == old.account(x)
    }

    /// `self` is `old` with the account that `h` holds cached for `a` under
    /// `key`.
    pub open spec fn added(self, old: SolanaBackend, a: Seq<u8>, key: Seq<u8>, h: HostAccount) -> bool {
        &&& self.same_context(old)
        &&& self.new_accounts == old.new_accounts
        &&& self.accounts@.len() == old.accounts@.len() + 1
        &&& self.accounts@.drop_last() == old.accounts@
        &&& self.accounts@.last().address@ == a
        &&& self.accounts@.last().host_key@ == key
        &&& self.accounts@.last().lamports == h.lamports
        &&& self.accounts@.last().data == h.data->Some_0
    }

    /// `self` is `old` with `a` recorded as absent.
    pub open spec fn marked_new(self, old: SolanaBackend, a: Seq<u8>) -> bool {
        &&& self.same_context(old)
        &&& self.accounts == old.accounts
        &&& self.new_accounts@.len() == old.new_accounts@.len() + 1
        &&& self.new_accounts@.drop_last() == old.new_accounts@
        &&& self.new_accounts@.last()@ == a
    }
}

/// What resolving `a` from `old` leaves: nothing changes where `a` is
/// resolved; else the derived key is looked up once, and a usable account
/// found there is cached, while anything else records `a` as absent.
pub open spec fn resolve_post<F: Fn(Vec<u8>) -> Option<HostAccount>>(
    old: SolanaBackend,
    new: SolanaBackend,
    a: Seq<u8>,
    lookup: F,
) -> bool {
    if old.resolved(a) {
        new == old
    } else {
        match old.derived_key(a) {
            None => new.marked_new(old, a),
            Some(key) => exists|k: Vec<u8>, h: Option<HostAccount>|
                k@ == key && lookup.ensures((k,), h) && if usable(h) {
                    new.added(old, a, key, h->Some_0)
                } else {
                    new.marked_new(old, a)
                },
        }
    }
}

pub(crate) fn bytes_eq(a: &Vec<u8>, b: &Vec<u8>) -> (r: bool)
    ensures
        r == (a@ == b@),
{
    if a.len() != b.len() {
        return false;
    }
    let mut i: usize = 0;
    while i < a.len()
        invariant
            a.len() == b.len(),
            i <= a.len(),
            forall|k: int| 0 <= k < i ==> a@[k] == b@[k],
        decreases a.len() - i,
    {
        if a[i] != b[i] {
            return false;
        }
        i = i + 1;
    }
    proof {
        assert(a@ =~= b@);
    }
    true
}

fn data_wf(d: &AccountData) -> (r: bool)
    ensures
        r == d.wf(),
{
    if d.ether.len() != 20 || d.signer.len() != 32 {
        return false;
    }
    let mut i: usize = 0;
    while i < d.storage.len()
        invariant
            i <= d.storage.len(),
            forall|k: int| 0 <= k < i ==> (#[trigger] d.storage@[k]).key.wf() && d.storage@[k].value.wf(),
        decreases d.storage.len() - i,
    {
        if d.storage[i].key.be.len() != 32 || d.storage[i].value.be.len() != 32 {
            return false;
        }
        i = i + 1;
    }
    true
}

impl SolanaBackend {
    /// The cache position of the account for `address`.
    pub fn find(&self, address: &Vec<u8>) -> (r: Option<usize>)
        requires
            self.wf(),
        ensures
            match r {
                Some(i) => i < self.accounts@.len() && self.accounts@[i as int].address@ == address@
                    && self.cached(address@) && self.index_of(address@) == i,
                None => !self.cached(address@),
            },
    {
        let mut i: usize = 0;
        while i < self.accounts.len()
            invariant
                self.wf(),
                i <= self.accounts@.len(),
                forall|k: int| 0 <= k < i ==> (#[trigger] self.accounts@[k]).address@ != address@,
            decreases self.accounts.len() - i,
        {
            if bytes_eq(&self.accounts[i].address, address) {
                proof {
                    assert(self.accounts@[i as int].address@ == address@);
                    let j = self.index_of(address@);
                    assert(self.cached(address@));
                    if j != i {
                        if j < i {
                            assert(self.accounts@[j].address@ != self.accounts@[i as int].address@);
                        } else {
                            assert(self.accounts@[i as int].address@ != self.accounts@[j].address@);
                        }
                    }
                }
                return Some(i);
            }
            i = i + 1;
        }
        None
    }

    fn is_new(&self, address: &Vec<u8>) -> (r: bool)
        ensures
            r == self.known_new(address@),
    {
        let mut i: usize = 0;
        while i < self.new_accounts.len()
            invariant
                i <= self.new_accounts@.len(),
                forall|k: int| 0 <= k < i ==> (#[trigger] self.new_accounts@[k])@ != address@,
            decreases self.new_accounts.len() - i,
        {
            if bytes_eq(&self.new_accounts[i], address) {
                return true;
            }
            i = i + 1;
        }
        false
    }

    fn mark_new(&mut self, address: &Vec<u8>)
        requires
            old(self).wf(),
            address@.len() == 20,
        ensures
            final(self).wf(),
            final(self).marked_new(*old(self), address@),
    {
        self.new_accounts.push(address.clone());
        proof {
            assert(final(self).new_accounts@.drop_last() =~= old(self).new_accounts@);
        }
    }

    /// Finds the account for a foreign address, materializing it on first
    /// use where accounts are looked up: the key derived from the base key,
    /// the address's Base58 text as seed and the program is looked up once,
    /// and the address is cached, or recorded as absent, for the rest of
    /// the invocation. Returns the account's cache position.
    pub fn resolve<F: Fn(Vec<u8>) -> Option<HostAccount>>(
        &mut self,
        address: &Vec<u8>,
        lookup: &F,
    ) -> (r: Option<usize>)
        requires
            old(self).wf(),
            address@.len() == 20,
            forall|k: Vec<u8>| lookup.requires((k,)),
        ensures
            final(self).wf(),
            final(self).resolved(address@),
            resolve_post(*old(self), *final(self), address@, *lookup),
            final(self).grows(*old(self)),
            match r {
                Some(i) => i < final(self).accounts@.len() && final(self).cached(address@)
                    && final(self).index_of(address@) == i,
                None => !final(self).cached(address@),
            },
    {
        let found = self.find(address);
        if found.is_some() {
            return found;
        }
        let base = match &self.mode {
            Mode::OnChain => return None,
            Mode::Emulator { base } => base.clone(),
        };
        if self.is_new(address) {
            return None;
        }
        let seed = base58(address.as_slice());
        let key = match create_with_seed(&base, seed.as_str(), &self.program_id) {
            Some(k) => k,
            None => {
                self.mark_new(address);
                return None;
            },
        };
        let ghost k0 = key;
        let h = lookup(key.clone());
        let ghost h0 = h;
        match h {
            Some(acc) => {
                let HostAccount { key: _, owner: _, lamports, data } = acc;
                match data {
                    Some(d) => {
                        if data_wf(&d) {
                            let ghost old_self = *self;
                            self.accounts.push(Account { address: address.clone(), host_key: key, lamports, data: d });
                            let i = self.accounts.len() - 1;
                            proof {
                                assert(self.accounts@.drop_last() =~= old_self.accounts@);
                                assert(self.accounts@[i as int].address@ == address@);
                                assert(self.wf()) by {
                                    assert forall|p: int, q: int|
                                        0 <= p < q < self.accounts@.len() implies
                                        (#[trigger] self.accounts@[p]).address@ != (#[trigger] self.accounts@[q]).address@ by {
                                        if q == i {
                                            assert(old_self.accounts@[p] == self.accounts@[p]);
                                        } else {
                                            assert(old_self.accounts@[p] == self.accounts@[p]);
                                            assert(old_self.accounts@[q] == self.accounts@[q]);
                                        }
                                    }
                                }
                                let j = self.index_of(address@);
                                assert(self.cached(address@));
                                if j != i {
                                    assert(self.accounts@[j] == old_self.accounts@[j]);
                                }
                                assert(self.added(old_self, address@, k0@, h0->Some_0));
                                lemma_push_cache(old_self, *self);
                            }
                            Some(i)
                        } else {
                            self.mark_new(address);
                            None
                        }
                    },
                    None => {
                        self.mark_new(address);
                        None
                    },
                }
            },
            None => {
                self.mark_new(address);
                None
            },
        }
    }
}

fn storage_get(entries: &Vec<StorageEntry>, key: &U256) -> (r: U256)
    requires
        key.wf(),
        forall|i: int|
            0 <= i < entries@.len() ==> (#[trigger] entries@[i]).key.wf() && entries@[i].value.wf(),
    ensures
        r.wf(),
        r.be@ == storage_value(entries@, key.be@),
{
    let mut i: usize = entries.len();
    proof {
        assert(entries@.subrange(0, i as int) =~= entries@);
    }
    while i > 0
        invariant
            i <= entries@.len(),
            key.wf(),
            forall|j: int|
                0 <= j < entries@.len() ==> (#[trigger] entries@[j]).key.wf() && entries@[j].value.wf(),
            storage_value(entries@, key.be@) == storage_value(entries@.subrange(0, i as int), key.be@),
        decreases i,
    {
        let ghost pre = entries@.subrange(0, i as int);
        proof {
            assert(pre.drop_last() =~= entries@.subrange(0, i - 1));
        }
        if bytes_eq(&entries[i - 1].key.be, &key.be) {
            return entries[i - 1].value.copy();
        }
        i = i - 1;
    }
    U256::zero()
}

impl SolanaBackend {
    /// Whether an account exists for `address`.
    pub fn account_exists<F: Fn(Vec<u8>) -> Option<HostAccount>>(
        &mut self,
        address: &Vec<u8>,
        lookup: &F,
    ) -> (r: bool)
        requires
            old(self).wf(),
            address@.len() == 20,
            forall|k: Vec<u8>| lookup.requires((k,)),
        ensures
            final(self).wf(),
            resolve_post(*old(self), *final(self), address@, *lookup),
            r == final(self).cached(address@),
    {
        self.resolve(address, lookup).is_some()
    }

    /// Balance and nonce: zero for an absent account.
    pub fn basic<F: Fn(Vec<u8>) -> Option<HostAccount>>(
        &mut self,
        address: &Vec<u8>,
        lookup: &F,
    ) -> (r: Basic)
        requires
            old(self).wf(),
            address@.len() == 20,
            forall|k: Vec<u8>| lookup.requires((k,)),
        ensures
            final(self).wf(),
            resolve_post(*old(self), *final(self), address@, *lookup),
            r == (if final(self).cached(address@) {
                Basic {
                    balance: final(self).account(address@).lamports,
                    nonce: final(self).account(address@).data.trx_count,
                }
            } else {
                Basic { balance: 0, nonce: 0 }
            }),
    {
        match self.resolve(address, lookup) {
            Some(i) => Basic {
                balance: self.accounts[i].lamports,
                nonce: self.accounts[i].data.trx_count,
            },
            None => Basic { balance: 0, nonce: 0 },
        }
    }

    /// The account's code: empty for an absent account.
    pub fn code<F: Fn(Vec<u8>) -> Option<HostAccount>>(
        &mut self,
        address: &Vec<u8>,
        lookup: &F,
    ) -> (r: Vec<u8>)
        requires
            old(self).wf(),
            address@.len() == 20,
            forall|k: Vec<u8>| lookup.requires((k,)),
        ensures
            final(self).wf(),
            resolve_post(*old(self), *final(self), address@, *lookup),
            r@ == (if final(self).cached(address@) {
                final(self).account(address@).data.code@
            } else {
                Seq::empty()
            }),
    {
        match self.resolve(address, lookup) {
            Some(i) => self.accounts[i].data.code.clone(),
            None => Vec::new(),
        }
    }

    /// The length of the account's code: zero for an absent account.
    pub fn code_size<F: Fn(Vec<u8>) -> Option<HostAccount>>(
        &mut self,
        address: &Vec<u8>,
        lookup: &F,
    ) -> (r: usize)
        requires
            old(self).wf(),
            address@.len() == 20,
            forall|k: Vec<u8>| lookup.requires((k,)),
        ensures
            final(self).wf(),
            resolve_post(*old(self), *final(self), address@, *lookup),
            r == (if final(self).cached(address@) {
                final(self).account(address@).data.code@.len()
            } else {
                0
            }),
    {
        match self.resolve(address, lookup) {
            Some(i) => self.accounts[i].data.code.len(),
            None => 0,
        }
    }

    /// The Keccak-256 digest of the account's code, that of the empty
    /// string for an absent account.
    pub fn code_hash<F: Fn(Vec<u8>) -> Option<HostAccount>>(
        &mut self,
        address: &Vec<u8>,
        lookup: &F,
    ) -> (r: Vec<u8>)
        requires
            old(self).wf(),
            address@.len() == 20,
            forall|k: Vec<u8>| lookup.requires((k,)),
        ensures
            final(self).wf(),
            resolve_post(*old(self), *final(self), address@, *lookup),
            r@ == keccak256_of(
                if final(self).cached(address@) {
                    final(self).account(address@).data.code@
                } else {
                    Seq::empty()
                },
            ),
    {
        match self.resolve(address, lookup) {
            Some(i) => keccak256(self.accounts[i].data.code.as_slice()),
            None => {
                let e: Vec<u8> = Vec::new();
                proof {
                    assert(e@ =~= Seq::<u8>::empty());
                }
                keccak256(e.as_slice())
            },
        }
    }

    /// The value stored under `index`: zero for an absent account or key.
    pub fn storage<F: Fn(Vec<u8>) -> Option<HostAccount>>(
        &mut self,
        address: &Vec<u8>,
        index: &U256,
        lookup: &F,
    ) -> (r: U256)
        requires
            old(self).wf(),
            address@.len() == 20,
            index.wf(),
            forall|k: Vec<u8>| lookup.requires((k,)),
        ensures
            final(self).wf(),
            resolve_post(*old(self), *final(self), address@, *lookup),
            r.wf(),
            r.be@ == (if final(self).cached(address@) {
                storage_value(final(self).account(address@).data.storage@, index.be@)
            } else {
                zeros(32)
            }),
    {
        match self.resolve(address, lookup) {
            Some(i) => {
                proof {
                    assert(self.accounts@[i as int].wf());
                }
                storage_get(&self.accounts[i].data.storage, index)
            },
            None => U256::zero(),
        }
    }
}

/// One change that an execution run asks for.
#[derive(Debug)]
pub enum Apply {
    Modify {
        address: Vec<u8>,
        basic: Basic,
        /// New code, replacing the old, where there is any.
        code: Option<Vec<u8>>,
        /// Storage writes, in order.
        storage: Vec<StorageEntry>,
        /// Whether the old storage is dropped before the writes.
        reset_storage: bool,
    },
    Delete { address: Vec<u8> },
}

/// What the host records of an account.
pub struct AccountView {
    pub address: Seq<u8>,
    pub host_key: Seq<u8>,
    pub lamports: u64,
    pub ether: Seq<u8>,
    pub nonce: u8,
    pub trx_count: u64,
    pub signer: Seq<u8>,
    pub code: Seq<u8>,
    pub storage: Map<Seq<u8>, Seq<u8>>,
}

impl Account {
    pub open spec fn view(self) -> AccountView {
        AccountView {
            address: self.address@,
            host_key: self.host_key@,
            lamports: self.lamports,
            ether: self.data.ether@,
            nonce: self.data.nonce,
            trx_count: self.data.trx_count,
            signer: self.data.signer@,
            code: self.data.code@,
            storage: storage_map(self.data.storage@),
        }
    }
}

pub open spec fn accounts_view(s: Seq<Account>) -> Seq<AccountView> {
    Seq::new(s.len(), |i: int| s[i].view())
}

/// Whether `apply` passes over a change to `a`: the host-call address
/// always, and `skip`'s address unless its flag keeps it.
pub open spec fn skipped(a: Seq<u8>, skip: Option<(Vec<u8>, bool)>) -> bool {
    a == system_address() || (skip matches Some((s, keep)) && !keep && a == s@)
}

/// The address that a change writes to, if it writes to any.
pub open spec fn target(op: Apply, skip: Option<(Vec<u8>, bool)>) -> Option<Seq<u8>> {
    match op {
        Apply::Modify { address, .. } => if skipped(address@, skip) {
            None
        } else {
            Some(address@)
        },
        Apply::Delete { .. } => None,
    }
}

/// An account after a modification: new balance and nonce, the new code if
/// any, and the writes over the old storage or over nothing.
pub open spec fn modified(acc: AccountView, op: Apply) -> AccountView {
    match op {
        Apply::Modify { basic, code, storage, reset_storage, .. } => AccountView {
            lamports: basic.balance,
            trx_count: basic.nonce,
            code: match code {
                Some(c) => c@,
                None => acc.code,
            },
            storage: (if reset_storage {
                Map::empty()
            } else {
                acc.storage
            }).union_prefer_right(storage_map(storage@)),
            ..acc
        },
        Apply::Delete { .. } => acc,
    }
}

pub open spec fn view_index(vs: Seq<AccountView>, a: Seq<u8>) -> int {
    choose|i: int| 0 <= i < vs.len() && (#[trigger] vs[i]).address == a
}

/// The accounts after the changes `ops`, in order.
pub open spec fn apply_ops(
    vs: Seq<AccountView>,
    ops: Seq<Apply>,
    skip: Option<(Vec<u8>, bool)>,
) -> Seq<AccountView>
    decreases ops.len(),
{
    if ops.len() == 0 {
        vs
    } else {
        let prev = apply_ops(vs, ops.drop_last(), skip);
        match target(ops.last(), skip) {
            Some(a) => prev.update(
                view_index(prev, a),
                modified(prev[view_index(prev, a)], ops.last()),
            ),
            None => prev,
        }
    }
}

impl SolanaBackend {
    /// `a` is cached, and its host account is among the visible ones.
    pub open spec fn backed(self, a: Seq<u8>) -> bool {
        self.cached(a) && exists|k: int|
            0 <= k < self.host_keys@.len() && (#[trigger] self.host_keys@[k])@
                == self.account(a).host_key@
    }

    /// Every change that is not passed over writes to a backed account.
    pub open spec fn all_backed(self, ops: Seq<Apply>, skip: Option<(Vec<u8>, bool)>) -> bool {
        forall|i: int|
            0 <= i < ops.len() ==> (target(#[trigger] ops[i], skip) matches Some(a) ==> self.backed(
                a,
            ))
    }

    fn is_backed(&self, address: &Vec<u8>) -> (r: bool)
        requires
            self.wf(),
        ensures
            r == self.backed(address@),
    {
        match self.find(address) {
            None => false,
            Some(i) => {
                let mut k: usize = 0;
                while k < self.host_keys.len()
                    invariant
                        self.wf(),
                        i < self.accounts@.len(),
                        self.index_of(address@) == i,
                        self.cached(address@),
                        k <= self.host_keys@.len(),
                        forall|j: int|
                            0 <= j < k ==> (#[trigger] self.host_keys@[j])@
                                != self.accounts@[i as int].host_key@,
                    decreases self.host_keys.len() - k,
                {
                    if bytes_eq(&self.host_keys[k], &self.accounts[i].host_key) {
                        proof {
                            assert(self.host_keys@[k as int]@ == self.account(address@).host_key@);
                        }
                        return true;
                    }
                    k = k + 1;
                }
                false
            },
        }
    }
}

fn is_skipped(address: &Vec<u8>, skip: &Option<(Vec<u8>, bool)>) -> (r: bool)
    ensures
        r == skipped(address@, *skip),
{
    let mut sys: Vec<u8> = vec![0xff];
    let mut i: usize = 0;
    while i < 19
        invariant
            i <= 19,
            sys@ == seq![0xffu8] + zeros(i as nat),
        decreases 19 - i,
    {
        sys.push(0);
        proof {
            assert(sys@ =~= seq![0xffu8] + zeros((i + 1) as nat));
        }
        i = i + 1;
    }
    if bytes_eq(address, &sys) {
        return true;
    }
    match skip {
        Some((s, keep)) => !*keep && bytes_eq(address, s),
        None => false,
    }
}

proof fn lemma_view_index(vs: Seq<AccountView>, i: int)
    requires
        0 <= i < vs.len(),
        forall|p: int, q: int| 0 <= p < q < vs.len() ==> (#[trigger] vs[p]).address != (#[trigger] vs[q]).address,
    ensures
        view_index(vs, vs[i].address) == i,
{
    let j = view_index(vs, vs[i].address);
    assert(0 <= j < vs.len() && vs[j].address == vs[i].address);
    if j < i {
        assert(vs[j].address != vs[i].address);
    } else if i < j {
        assert(vs[i].address != vs[j].address);
    }
}

/// Applies one modification to a single account.
fn modify_account(acc: &mut Account, basic: Basic, code: &Option<Vec<u8>>, storage: &Vec<StorageEntry>, reset_storage: bool)
    requires
        old(acc).wf(),
        forall|i: int|
            0 <= i < storage@.len() ==> (#[trigger] storage@[i]).key.wf() && storage@[i].value.wf(),
    ensures
        final(acc).wf(),
        final(acc).address == old(acc).address,
        final(acc).host_key == old(acc).host_key,
        final(acc).view() == modified(
            old(acc).view(),
            Apply::Modify { address: old(acc).address, basic, code: *code, storage: *storage, reset_storage },
        ),
{
    acc.lamports = basic.balance;
    acc.data.trx_count = basic.nonce;
    match code {
        Some(c) => {
            acc.data.code = c.clone();
        },
        None => {},
    }
    if reset_storage {
        acc.data.storage = Vec::new();
        proof {
            assert(storage_map(acc.data.storage@) =~= Map::<Seq<u8>, Seq<u8>>::empty());
        }
    }
    let ghost base = acc.data.storage@;
    let mut j: usize = 0;
    while j < storage.len()
        invariant
            j <= storage@.len(),
            acc.wf(),
            forall|i: int|
                0 <= i < storage@.len() ==> (#[trigger] storage@[i]).key.wf() && storage@[i].value.wf(),
            storage_map(acc.data.storage@) == storage_map(base).union_prefer_right(
                storage_map(storage@.subrange(0, j as int)),
            ),
            acc.address == old(acc).address,
            acc.host_key == old(acc).host_key,
            acc.lamports == basic.balance,
            acc.data.trx_count == basic.nonce,
            acc.data.code@ == (match code {
                Some(c) => c@,
                None => old(acc).data.code@,
            }),
            acc.data.ether == old(acc).data.ether,
            acc.data.nonce == old(acc).data.nonce,
            acc.data.signer == old(acc).data.signer,
            base == (if reset_storage { Seq::<StorageEntry>::empty() } else { old(acc).data.storage@ }),
        decreases storage.len() - j,
    {
        let e = StorageEntry { key: storage[j].key.copy(), value: storage[j].value.copy() };
        let ghost prev = acc.data.storage@;
        acc.data.storage.push(e);
        proof {
            assert(acc.data.storage@.drop_last() =~= prev);
            assert(storage@.subrange(0, j + 1).drop_last() =~= storage@.subrange(0, j as int));
            assert(storage_map(acc.data.storage@) =~= storage_map(base).union_prefer_right(
                storage_map(storage@.subrange(0, j + 1)),
            ));
        }
        j = j + 1;
    }
    proof {
        assert(storage@.subrange(0, storage@.len() as int) =~= storage@);
        if reset_storage {
            assert(storage_map(base) =~= Map::<Seq<u8>, Seq<u8>>::empty());
        }
        assert(final(acc).view().storage =~= modified(
            old(acc).view(),
            Apply::Modify { address: old(acc).address, basic, code: *code, storage: *storage, reset_storage },
        ).storage);
    }
}

/// Every storage write of the changes holds 32-byte keys and values.
pub open spec fn ops_wf(ops: Seq<Apply>) -> bool {
    forall|j: int|
        0 <= j < ops.len() ==> ((#[trigger] ops[j]) matches Apply::Modify { storage, .. } ==> forall|
            i: int,
        |
            0 <= i < storage@.len() ==> (#[trigger] storage@[i]).key.wf() && storage@[i].value.wf())
}

impl SolanaBackend {
    /// Writes the changes of an execution run into the cached accounts, in
    /// order. All or nothing: where a change that is not passed over writes
    /// to an address without a backing host account, nothing is written and
    /// `NotEnoughAccountKeys` comes back. Deletions have no effect.
    pub fn apply(
        &mut self,
        values: Vec<Apply>,
        delete_empty: bool,
        skip_addr: Option<(Vec<u8>, bool)>,
    ) -> (r: Result<(), ProgramError>)
        requires
            old(self).wf(),
            ops_wf(values@),
        ensures
            final(self).wf(),
            r is Err <==> !old(self).all_backed(values@, skip_addr),
            r matches Err(e) ==> e == ProgramError::NotEnoughAccountKeys && *final(self) == *old(
                self,
            ),
            r is Ok ==> final(self).same_context(*old(self)) && final(self).new_accounts == old(
                self,
            ).new_accounts && accounts_view(final(self).accounts@) == apply_ops(
                accounts_view(old(self).accounts@),
                values@,
                skip_addr,
            ),
    {
        let mut j: usize = 0;
        while j < values.len()
            invariant
                self.wf(),
                j <= values@.len(),
                forall|i: int|
                    0 <= i < j ==> (target(#[trigger] values@[i], skip_addr) matches Some(a)
                        ==> self.backed(a)),
            decreases values.len() - j,
        {
            match &values[j] {
                Apply::Modify { address, .. } => {
                    if !is_skipped(address, &skip_addr) && !self.is_backed(address) {
                        proof {
                            assert(target(values@[j as int], skip_addr) == Some(address@));
                        }
                        return Err(ProgramError::NotEnoughAccountKeys);
                    }
                },
                Apply::Delete { .. } => {},
            }
            j = j + 1;
        }
        let ghost old_self = *self;
        let ghost v0 = accounts_view(self.accounts@);
        proof {
            assert(values@.subrange(0, 0) =~= Seq::<Apply>::empty());
        }
        let mut j: usize = 0;
        while j < values.len()
            invariant
                self.wf(),
                old_self.wf(),
                old_self.all_backed(values@, skip_addr),
                ops_wf(values@),
                j <= values@.len(),
                self.same_context(old_self),
                self.new_accounts == old_self.new_accounts,
                self.accounts@.len() == old_self.accounts@.len(),
                forall|i: int|
                    0 <= i < self.accounts@.len() ==> (#[trigger] self.accounts@[i]).address
                        == old_self.accounts@[i].address && self.accounts@[i].host_key
                        == old_self.accounts@[i].host_key,
                v0 == accounts_view(old_self.accounts@),
                accounts_view(self.accounts@) == apply_ops(
                    v0,
                    values@.subrange(0, j as int),
                    skip_addr,
                ),
            decreases values.len() - j,
        {
            let ghost before = accounts_view(self.accounts@);
            proof {
                let t = values@.subrange(0, j + 1);
                assert(t.drop_last() =~= values@.subrange(0, j as int));
                assert(t.last() == values@[j as int]);
            }
            match &values[j] {
                Apply::Modify { address, basic, code, storage, reset_storage } => {
                    if !is_skipped(address, &skip_addr) {
                        match self.find(address) {
                            Some(i) => {
                                proof {
                                    assert(forall|p: int, q: int|
                                        0 <= p < q < before.len() ==> (#[trigger] before[p]).address
                                            != (#[trigger] before[q]).address);
                                    assert(before[i as int].address == address@);
                                    lemma_view_index(before, i as int);
                                    assert(self.accounts@[i as int].wf());
                                    assert(forall|k: int|
                                        0 <= k < storage@.len() ==> (#[trigger] storage@[k]).key.wf()
                                            && storage@[k].value.wf()) by {
                                        assert(values@[j as int] matches Apply::Modify { .. });
                                    }
                                }
                                let ghost prev_accounts = self.accounts@;
                                let mut acc = self.accounts.remove(i);
                                modify_account(&mut acc, *basic, code, storage, *reset_storage);
                                self.accounts.insert(i, acc);
                                proof {
                                    assert(self.accounts@ =~= prev_accounts.update(i as int, acc));
                                    assert(accounts_view(self.accounts@) =~= before.update(
                                        i as int,
                                        modified(before[i as int], values@[j as int]),
                                    ));
                                    assert forall|p: int, q: int|
                                        0 <= p < q < self.accounts@.len() implies (#[trigger] self.accounts@[p]).address@
                                            != (#[trigger] self.accounts@[q]).address@ by {
                                        assert(prev_accounts[p].address == self.accounts@[p].address);
                                        assert(prev_accounts[q].address == self.accounts@[q].address);
                                    }
                                }
                            },
                            None => {
                                proof {
                                    assert(target(values@[j as int], skip_addr) == Some(address@));
                                    assert(old_self.backed(address@));
                                    let k = old_self.index_of(address@);
                                    assert(self.accounts@[k].address@ == address@);
                                }
                                return Err(ProgramError::NotEnoughAccountKeys);
                            },
                        }
                    }
                },
                Apply::Delete { .. } => {},
            }
            j = j + 1;
        }
        proof {
            assert(values@.subrange(0, values@.len() as int) =~= values@);
        }
        Ok(())
    }
}

/// A host account of the program itself, which holds contract data.
pub open spec fn owned_by(h: HostAccount, program_id: Seq<u8>) -> bool {
    h.owner@ == program_id
}

/// The foreign address that the contract data of `h` names.
pub open spec fn ether_of(h: HostAccount) -> Seq<u8> {
    h.data->Some_0.ether@
}

/// `i` is the last of the program's accounts in `infos` that names `a`.
pub open spec fn last_for(infos: Seq<HostAccount>, program_id: Seq<u8>, a: Seq<u8>, i: int) -> bool {
    &&& 0 <= i < infos.len()
    &&& owned_by(infos[i], program_id)
    &&& ether_of(infos[i]) == a
    &&& forall|j: int|
        i < j < infos.len() ==> !(owned_by(#[trigger] infos[j], program_id) && ether_of(infos[j]) == a)
}

/// The address that the account at position `i` gives the contract (0) or
/// the caller (1): the one its data names, where it is the program's.
pub open spec fn role_address(infos: Seq<HostAccount>, program_id: Seq<u8>, i: int) -> Seq<u8> {
    if i < infos.len() && owned_by(infos[i], program_id) {
        ether_of(infos[i])
    } else {
        system_address()
    }
}

fn system_address_vec() -> (r: Vec<u8>)
    ensures
        r@ == system_address(),
{
    let mut v: Vec<u8> = vec![0xff];
    let mut i: usize = 0;
    while i < 19
        invariant
            i <= 19,
            v@ == seq![0xffu8] + zeros(i as nat),
        decreases 19 - i,
    {
        v.push(0);
        proof {
            assert(v@ =~= seq![0xffu8] + zeros((i + 1) as nat));
        }
        i = i + 1;
    }
    v
}

impl SolanaBackend {
    /// A backend over the invocation's account list: each account of the
    /// program is cached under the foreign address its data names (the last
    /// one wins), the first two give the contract and the caller, and
    /// nothing is looked up later. A program account without well-formed
    /// data is `InvalidAccountData`.
    pub fn new(
        program_id: &Vec<u8>,
        account_infos: Vec<HostAccount>,
        slot: u64,
        timestamp: i64,
    ) -> (r: Result<SolanaBackend, ProgramError>)
        requires
            program_id@.len() == 32,
            forall|i: int| 0 <= i < account_infos@.len() ==> (#[trigger] account_infos@[i]).key@.len() == 32,
        ensures
            match r {
                Ok(b) => {
                    &&& b.wf()
                    &&& b.mode is OnChain
                    &&& b.program_id@ == program_id@
                    &&& b.block_number == slot
                    &&& b.block_timestamp == timestamp
                    &&& b.new_accounts@.len() == 0
                    &&& b.host_keys@.len() == account_infos@.len()
                    &&& forall|i: int|
                        0 <= i < account_infos@.len() ==> (#[trigger] b.host_keys@[i])@
                            == account_infos@[i].key@
                    &&& forall|i: int|
                        0 <= i < account_infos@.len() && owned_by(#[trigger] account_infos@[i], program_id@)
                            ==> usable(Some(account_infos@[i]))
                    &&& b.contract_id@ == role_address(account_infos@, program_id@, 0)
                    &&& b.caller_id@ == role_address(account_infos@, program_id@, 1)
                    &&& forall|a: Seq<u8>|
                        #[trigger] b.cached(a) <==> exists|i: int|
                            last_for(account_infos@, program_id@, a, i)
                    &&& forall|a: Seq<u8>, i: int|
                        #[trigger] last_for(account_infos@, program_id@, a, i) ==> {
                            let acc = b.account(a);
                            &&& acc.host_key@ == account_infos@[i].key@
                            &&& acc.lamports == account_infos@[i].lamports
                            &&& acc.data == account_infos@[i].data->Some_0
                        }
                },
                Err(e) => e == ProgramError::InvalidAccountData && exists|i: int|
                    0 <= i < account_infos@.len() && owned_by(#[trigger] account_infos@[i], program_id@)
                        && !usable(Some(account_infos@[i])),
            },
    {
        let ghost orig = account_infos@;
        let mut infos = account_infos;
        let mut b = SolanaBackend {
            accounts: Vec::new(),
            new_accounts: Vec::new(),
            host_keys: Vec::new(),
            mode: Mode::OnChain,
            program_id: program_id.clone(),
            contract_id: system_address_vec(),
            caller_id: system_address_vec(),
            block_number: slot,
            block_timestamp: timestamp,
        };
        let n = infos.len();
        let mut k: usize = 0;
        proof {
            assert(orig.subrange(0, orig.len() as int) =~= orig);
        }
        while k < n
            invariant
                n == orig.len(),
                orig == account_infos@,
                k <= n,
                infos@ == orig.subrange(k as int, n as int),
                forall|i: int| 0 <= i < orig.len() ==> (#[trigger] orig[i]).key@.len() == 32,
                b.wf(),
                b.mode is OnChain,
                b.program_id@ == program_id@,
                b.block_number == slot,
                b.block_timestamp == timestamp,
                b.new_accounts@.len() == 0,
                b.host_keys@.len() == k,
                forall|i: int| 0 <= i < k ==> (#[trigger] b.host_keys@[i])@ == orig[i].key@,
                b.contract_id@ == role_address(orig.subrange(0, k as int), program_id@, 0),
                b.caller_id@ == role_address(orig.subrange(0, k as int), program_id@, 1),
                forall|i: int|
                    0 <= i < k && owned_by(#[trigger] orig[i], program_id@) ==> usable(Some(orig[i])),
                forall|a: Seq<u8>|
                    #[trigger] b.cached(a) <==> exists|i: int|
                        last_for(orig.subrange(0, k as int), program_id@, a, i),
                forall|a: Seq<u8>, i: int|
                    #[trigger] last_for(orig.subrange(0, k as int), program_id@, a, i) ==> {
                        let acc = b.account(a);
                        &&& acc.host_key@ == orig[i].key@
                        &&& acc.lamports == orig[i].lamports
                        &&& acc.data == orig[i].data->Some_0
                    },
            decreases n - k,
        {
            let ghost b0 = b;
            let info = infos.remove(0);
            proof {
                assert(info == orig[k as int]);
                assert(infos@ =~= orig.subrange(k + 1, n as int));
            }
            b.host_keys.push(info.key.clone());
            let ghost pre = orig.subrange(0, k as int);
            let ghost post = orig.subrange(0, k + 1);
            proof {
                assert(post =~= pre.push(info));
            }
            if bytes_eq(&info.owner, program_id) {
                let ghost info0 = info;
                proof {
                    assert(owned_by(orig[k as int], program_id@));
                }
                let HostAccount { key, owner: _, lamports, data } = info;
                let d = match data {
                    Some(d) => d,
                    None => {
                        proof {
                            assert(!usable(Some(orig[k as int])));
                            assert(0 <= k < account_infos@.len() && owned_by(account_infos@[k as int], program_id@)
                                && !usable(Some(account_infos@[k as int])));
                        }
                        return Err(ProgramError::InvalidAccountData);
                    },
                };
                if !data_wf(&d) {
                    proof {
                        assert(!usable(Some(orig[k as int])));
                        assert(0 <= k < account_infos@.len() && owned_by(account_infos@[k as int], program_id@)
                            && !usable(Some(account_infos@[k as int])));
                    }
                    return Err(ProgramError::InvalidAccountData);
                }
                if k == 0 {
                    b.contract_id = d.ether.clone();
                } else if k == 1 {
                    b.caller_id = d.ether.clone();
                }
                let ghost bb = b;
                let address = d.ether.clone();
                let acc = Account { address, host_key: key, lamports, data: d };
                b.put(acc);
                proof {
                    let x = orig[k as int];
                    assert(ether_of(x) == acc.address@);
                    lemma_last_for_new(pre, x, program_id@);
                    assert forall|a: Seq<u8>|
                        #[trigger] b.cached(a) <==> exists|i: int| last_for(post, program_id@, a, i) by {
                        if a == acc.address@ {
                            assert(last_for(post, program_id@, a, k as int));
                        } else {
                            if b.cached(a) {
                                assert(bb.cached(a));
                                assert(b0.cached(a));
                                let i = choose|i: int| last_for(pre, program_id@, a, i);
                                lemma_last_for_extend(pre, x, program_id@, a, i);
                            }
                            if exists|i: int| last_for(post, program_id@, a, i) {
                                let i = choose|i: int| last_for(post, program_id@, a, i);
                                lemma_last_for_shrink(pre, x, program_id@, a, i);
                                assert(b0.cached(a));
                                assert(bb.accounts == b0.accounts);
                                assert(bb.accounts@[b0.index_of(a)].address@ == a);
                                assert(bb.cached(a));
                            }
                        }
                    }
                    assert forall|a: Seq<u8>, i: int|
                        #[trigger] last_for(post, program_id@, a, i) implies {
                            let acc2 = b.account(a);
                            &&& acc2.host_key@ == orig[i].key@
                            &&& acc2.lamports == orig[i].lamports
                            &&& acc2.data == orig[i].data->Some_0
                        } by {
                        if a == acc.address@ {
                            lemma_last_for_unique(pre, x, program_id@, a, i);
                        } else {
                            lemma_last_for_shrink(pre, x, program_id@, a, i);
                            assert(b0.cached(a));
                            assert(bb.accounts == b0.accounts);
                            assert(bb.accounts@[b0.index_of(a)].address@ == a);
                            assert(bb.cached(a));
                            assert(b.cached(a) == bb.cached(a));
                            assert(b.account(a) == bb.account(a));
                            assert(bb.account(a) == b0.account(a));
                        }
                    }
                }
            } else {
                proof {
                    let x = orig[k as int];
                    assert(!owned_by(x, program_id@));
                    assert forall|a: Seq<u8>|
                        #[trigger] b.cached(a) <==> exists|i: int| last_for(post, program_id@, a, i) by {
                        if b.cached(a) {
                            assert(b0.cached(a));
                            let i = choose|i: int| last_for(pre, program_id@, a, i);
                            lemma_last_for_extend(pre, x, program_id@, a, i);
                        }
                        if exists|i: int| last_for(post, program_id@, a, i) {
                            let i = choose|i: int| last_for(post, program_id@, a, i);
                            lemma_last_for_shrink(pre, x, program_id@, a, i);
                            assert(b0.cached(a));
                        }
                    }
                    assert forall|a: Seq<u8>, i: int|
                        #[trigger] last_for(post, program_id@, a, i) implies {
                            let acc2 = b.account(a);
                            &&& acc2.host_key@ == orig[i].key@
                            &&& acc2.lamports == orig[i].lamports
                            &&& acc2.data == orig[i].data->Some_0
                        } by {
                        lemma_last_for_shrink(pre, x, program_id@, a, i);
                        assert(b.account(a) == b0.account(a));
                    }
                }
            }
            k = k + 1;
        }
        proof {
            assert(orig.subrange(0, n as int) =~= orig);
        }
        Ok(b)
    }

    /// Caches `acc`, replacing the account cached for its address, if any.
    fn put(&mut self, acc: Account)
        requires
            old(self).wf(),
            acc.wf(),
        ensures
            final(self).wf(),
            final(self).same_context(*old(self)),
            final(self).new_accounts == old(self).new_accounts,
            final(self).cached(acc.address@),
            final(self).account(acc.address@) == acc,
            forall|a: Seq<u8>|
                a != acc.address@ ==> (#[trigger] final(self).cached(a) == old(self).cached(a)
                    && (old(self).cached(a) ==> final(self).account(a) == old(self).account(a))),
    {
        match self.find(&acc.address) {
            Some(i) => {
                let ghost prev = self.accounts@;
                let _ = self.accounts.remove(i);
                self.accounts.insert(i, acc);
                proof {
                    assert(self.accounts@ =~= prev.update(i as int, acc));
                    lemma_same_addresses_cache(*old(self), *self, i as int);
                }
            },
            None => {
                let ghost prev = self.accounts@;
                self.accounts.push(acc);
                proof {
                    assert(self.accounts@.drop_last() =~= prev);
                    lemma_push_cache(*old(self), *self);
                }
            },
        }
    }
}

proof fn lemma_last_for_new(pre: Seq<HostAccount>, x: HostAccount, pid: Seq<u8>)
    requires
        owned_by(x, pid),
    ensures
        last_for(pre.push(x), pid, ether_of(x), pre.len() as int),
{
}

proof fn lemma_last_for_extend(pre: Seq<HostAccount>, x: HostAccount, pid: Seq<u8>, a: Seq<u8>, i: int)
    requires
        last_for(pre, pid, a, i),
        !(owned_by(x, pid) && ether_of(x) == a),
    ensures
        last_for(pre.push(x), pid, a, i),
{
    let post = pre.push(x);
    assert forall|j: int| i < j < post.len() implies !(owned_by(#[trigger] post[j], pid) && ether_of(post[j]) == a) by {
        if j < pre.len() {
            assert(post[j] == pre[j]);
        }
    }
}

proof fn lemma_last_for_shrink(pre: Seq<HostAccount>, x: HostAccount, pid: Seq<u8>, a: Seq<u8>, i: int)
    requires
        last_for(pre.push(x), pid, a, i),
        !(owned_by(x, pid) && ether_of(x) == a),
    ensures
        last_for(pre, pid, a, i),
{
    let post = pre.push(x);
    assert(i != pre.len());
    assert(post[i] == pre[i]);
    assert forall|j: int| i < j < pre.len() implies !(owned_by(#[trigger] pre[j], pid) && ether_of(pre[j]) == a) by {
        assert(post[j] == pre[j]);
    }
}

proof fn lemma_last_for_unique(pre: Seq<HostAccount>, x: HostAccount, pid: Seq<u8>, a: Seq<u8>, i: int)
    requires
        last_for(pre.push(x), pid, a, i),
        owned_by(x, pid),
        ether_of(x) == a,
    ensures
        i == pre.len(),
{
    let post = pre.push(x);
    if i < pre.len() {
        assert(post[pre.len() as int] == x);
        assert(!(owned_by(post[pre.len() as int], pid) && ether_of(post[pre.len() as int]) == a));
    }
}

proof fn lemma_same_addresses_cache(old: SolanaBackend, new: SolanaBackend, i: int)
    requires
        old.wf(),
        0 <= i < old.accounts@.len(),
        new.accounts@ == old.accounts@.update(i, new.accounts@[i]),
        new.accounts@[i].address@ == old.accounts@[i].address@,
        new.accounts@[i].wf(),
        new.same_context(old),
        new.new_accounts == old.new_accounts,
    ensures
        new.wf(),
        new.cached(new.accounts@[i].address@),
        new.account(new.accounts@[i].address@) == new.accounts@[i],
        forall|a: Seq<u8>|
            a != new.accounts@[i].address@ ==> (#[trigger] new.cached(a) == old.cached(a) && (old.cached(a)
                ==> new.account(a) == old.account(a))),
{
    assert forall|p: int, q: int| 0 <= p < q < new.accounts@.len() implies (#[trigger] new.accounts@[p]).address@
        != (#[trigger] new.accounts@[q]).address@ by {
        assert(old.accounts@[p].address@ != old.accounts@[q].address@);
    }
    let a0 = new.accounts@[i].address@;
    let j = new.index_of(a0);
    assert(new.cached(a0));
    if j != i {
        if j < i {
            assert(new.accounts@[j].address@ != new.accounts@[i].address@);
        } else {
            assert(new.accounts@[i].address@ != new.accounts@[j].address@);
        }
    }
    assert forall|a: Seq<u8>| a != a0 implies (#[trigger] new.cached(a) == old.cached(a) && (old.cached(a)
        ==> new.account(a) == old.account(a))) by {
        if old.cached(a) {
            let p = old.index_of(a);
            assert(p != i);
            assert(new.accounts@[p] == old.accounts@[p]);
            assert(new.accounts@[p].address@ == a);
            let q = new.index_of(a);
            if p != q {
                if p < q {
                    assert(new.accounts@[p].address@ != new.accounts@[q].address@);
                } else {
                    assert(new.accounts@[q].address@ != new.accounts@[p].address@);
                }
            }
        }
        if new.cached(a) {
            let q = new.index_of(a);
            assert(q != i);
            assert(new.accounts@[q] == old.accounts@[q]);
            assert(old.accounts@[q].address@ == a);
        }
    }
}

proof fn lemma_push_cache(old: SolanaBackend, new: SolanaBackend)
    requires
        old.wf(),
        new.accounts@.len() == old.accounts@.len() + 1,
        new.accounts@.drop_last() == old.accounts@,
        !old.cached(new.accounts@.last().address@),
        new.accounts@.last().wf(),
        new.same_context(old),
        new.new_accounts == old.new_accounts,
    ensures
        new.wf(),
        new.cached(new.accounts@.last().address@),
        new.account(new.accounts@.last().address@) == new.accounts@.last(),
        forall|a: Seq<u8>|
            a != new.accounts@.last().address@ ==> (#[trigger] new.cached(a) == old.cached(a) && (
            old.cached(a) ==> new.account(a) == old.account(a))),
{
    let n = old.accounts@.len() as int;
    let a0 = new.accounts@.last().address@;
    assert forall|i: int| 0 <= i < n implies new.accounts@[i] == old.accounts@[i] by {
        assert(new.accounts@.drop_last()[i] == new.accounts@[i]);
    }
    assert forall|p: int, q: int| 0 <= p < q < new.accounts@.len() implies (#[trigger] new.accounts@[p]).address@
        != (#[trigger] new.accounts@[q]).address@ by {
        if q == n {
            assert(old.accounts@[p].address@ != a0);
        } else {
            assert(old.accounts@[p].address@ != old.accounts@[q].address@);
        }
    }
    assert(new.accounts@[n].address@ == a0);
    let j = new.index_of(a0);
    assert(new.cached(a0));
    if j != n {
        assert(old.accounts@[j].address@ == a0);
    }
    assert forall|a: Seq<u8>| a != a0 implies (#[trigger] new.cached(a) == old.cached(a) && (old.cached(a)
        ==> new.account(a) == old.account(a))) by {
        if old.cached(a) {
            let p = old.index_of(a);
            assert(new.accounts@[p].address@ == a);
            let q = new.index_of(a);
            if p != q {
                if q == n {
                } else if p < q {
                    assert(new.accounts@[p].address@ != new.accounts@[q].address@);
                } else {
                    assert(new.accounts@[q].address@ != new.accounts@[p].address@);
                }
            }
        }
        if new.cached(a) {
            let q = new.index_of(a);
            assert(q != n);
            assert(old.accounts@[q].address@ == a);
        }
    }
}

/// How a call into the host-call address ended.
#[derive(Debug, Clone, Copy, PartialEq, Eq, Structural)]
pub enum ExitReason {
    /// Succeeded without output.
    Stopped,
    /// Succeeded with output.
    Returned,
    /// Failed: malformed input, an address that does not translate, a seed
    /// that derives no key, or a failed invocation.
    InvalidRange,
}

/// An account handed to a host program.
#[derive(Debug)]
pub struct AccountMeta {
    pub pubkey: Vec<u8>,
    pub is_signer: bool,
    pub is_writable: bool,
}

/// A signed invocation of a host program, for the host to run.
#[derive(Debug)]
pub struct CrossProgramCall {
    pub program_id: Vec<u8>,
    pub accounts: Vec<AccountMeta>,
    pub data: Vec<u8>,
    /// The seed sets of the derived keys that sign: each the 20-byte
    /// address and the one-byte bump nonce.
    pub signer_seeds: Vec<Vec<Vec<u8>>>,
}

/// What a call into the host-call address comes to.
#[derive(Debug)]
pub enum CallOutcome {
    Exit { reason: ExitReason, output: Vec<u8> },
    /// The host runs the invocation, then hands its success to
    /// `invoke_finished`.
    Invoke(CrossProgramCall),
}

/// The key that an account field of a call stands for: the raw 32-byte key,
/// or, where `flag` asks for translation, the host key of the account
/// cached for the foreign address in its last 20 bytes.
pub open spec fn translated(b: SolanaBackend, flag: u8, key: Seq<u8>) -> Option<Seq<u8>> {
    if flag == 0 {
        Some(key)
    } else if b.cached(key.subrange(12, 32)) {
        Some(b.account(key.subrange(12, 32)).host_key@)
    } else {
        None
    }
}

pub open spec fn invoke_count(input: Seq<u8>) -> int {
    input[33] as int * 256 + input[34] as int
}

/// The descriptor of account `i` of an invocation: translate flag, signer
/// flag, writable flag, then 32 key bytes.
pub open spec fn descriptor(input: Seq<u8>, i: int) -> Seq<u8> {
    input.subrange(35 + 35 * i, 70 + 35 * i)
}

pub open spec fn invoke_sized(input: Seq<u8>) -> bool {
    input.len() >= 35 && input.len() >= 35 + 35 * invoke_count(input)
}

/// The seed set of an account's derived signing key.
pub open spec fn seeds_of(acc: Account, seeds: Vec<Vec<u8>>) -> bool {
    &&& seeds@.len() == 2
    &&& seeds@[0]@ == acc.data.ether@
    &&& seeds@[1]@ == seq![acc.data.nonce]
}

/// `c` is the invocation that `input` asks for, against the accounts of `b`.
pub open spec fn invoke_matches(b: SolanaBackend, input: Seq<u8>, c: CrossProgramCall) -> bool {
    let n = invoke_count(input);
    &&& c.program_id@ == input.subrange(1, 33)
    &&& c.data@ == input.subrange(35 + 35 * n, input.len() as int)
    &&& c.accounts@.len() == n
    &&& forall|i: int|
        0 <= i < n ==> {
            let d = descriptor(input, i);
            &&& translated(b, d[0], d.subrange(3, 35)) == Some((#[trigger] c.accounts@[i]).pubkey@)
            &&& c.accounts@[i].is_signer == (d[1] != 0)
            &&& c.accounts@[i].is_writable == (d[2] != 0)
        }
    &&& if b.cached(b.caller_id@) {
        &&& c.signer_seeds@.len() == 2
        &&& seeds_of(b.account(b.caller_id@), c.signer_seeds@[0])
        &&& seeds_of(b.account(b.contract_id@), c.signer_seeds@[1])
    } else {
        &&& c.signer_seeds@.len() == 1
        &&& seeds_of(b.account(b.contract_id@), c.signer_seeds@[0])
    }
}

/// Whether an invocation that `input` asks for can be made from `b`.
pub open spec fn invoke_possible(b: SolanaBackend, input: Seq<u8>) -> bool {
    &&& invoke_sized(input)
    &&& forall|i: int|
        0 <= i < invoke_count(input) ==> translated(
            b,
            (#[trigger] descriptor(input, i))[0],
            descriptor(input, i).subrange(3, 35),
        ) is Some
    &&& b.cached(b.contract_id@)
}

/// The key that a derivation request in `input` gives, against `b`.
pub open spec fn derive_result(b: SolanaBackend, input: Seq<u8>) -> Option<Seq<u8>> {
    if input.len() < 67 {
        None
    } else {
        let base = translated(b, input[1], input.subrange(3, 35));
        let owner = translated(b, input[2], input.subrange(35, 67));
        let seed = utf8_text(input.subrange(67, input.len() as int));
        if base is None || owner is None || seed is None {
            None
        } else {
            seed_derived_key(base->Some_0, seed->Some_0, owner->Some_0)
        }
    }
}

pub open spec fn is_exit(r: CallOutcome, reason: ExitReason, output: Seq<u8>) -> bool {
    r matches CallOutcome::Exit { reason: rr, output: o } && rr == reason && o@ == output
}

proof fn lemma_grows_trans(a: SolanaBackend, b: SolanaBackend, c: SolanaBackend)
    requires
        b.grows(a),
        c.grows(b),
    ensures
        c.grows(a),
{
    assert forall|x: Seq<u8>| #[trigger] a.cached(x) implies c.cached(x) && c.account(x) == a.account(x) by {
        assert(b.cached(x));
    }
}

proof fn lemma_translated_stays(a: SolanaBackend, b: SolanaBackend, flag: u8, key: Seq<u8>)
    requires
        b.grows(a),
        translated(a, flag, key) is Some,
    ensures
        translated(b, flag, key) == translated(a, flag, key),
{
    if flag != 0 {
        assert(a.cached(key.subrange(12, 32)));
    }
}

fn error_exit() -> (r: CallOutcome)
    ensures
        is_exit(r, ExitReason::InvalidRange, Seq::empty()),
{
    let output: Vec<u8> = Vec::new();
    proof {
        assert(output@ =~= Seq::<u8>::empty());
    }
    CallOutcome::Exit { reason: ExitReason::InvalidRange, output }
}

/// The exit of an invocation that the host has run.
pub fn invoke_finished(succeeded: bool) -> (r: CallOutcome)
    ensures
        is_exit(
            r,
            if succeeded {
                ExitReason::Stopped
            } else {
                ExitReason::InvalidRange
            },
            Seq::empty(),
        ),
{
    let output: Vec<u8> = Vec::new();
    proof {
        assert(output@ =~= Seq::<u8>::empty());
    }
    if succeeded {
        CallOutcome::Exit { reason: ExitReason::Stopped, output }
    } else {
        CallOutcome::Exit { reason: ExitReason::InvalidRange, output }
    }
}

fn seed_set(acc: &Account) -> (r: Vec<Vec<u8>>)
    ensures
        seeds_of(*acc, r),
{
    let mut seeds: Vec<Vec<u8>> = Vec::new();
    seeds.push(acc.data.ether.clone());
    let nonce: Vec<u8> = vec![acc.data.nonce];
    proof {
        assert(nonce@ =~= seq![acc.data.nonce]);
    }
    seeds.push(nonce);
    seeds
}

impl SolanaBackend {
    /// The host key of the account that stands for a foreign address,
    /// materializing it where accounts are looked up.
    pub fn get_account_solana_address<F: Fn(Vec<u8>) -> Option<HostAccount>>(
        &mut self,
        address: &Vec<u8>,
        lookup: &F,
    ) -> (r: Option<Vec<u8>>)
        requires
            old(self).wf(),
            address@.len() == 20,
            forall|k: Vec<u8>| lookup.requires((k,)),
        ensures
            final(self).wf(),
            final(self).grows(*old(self)),
            resolve_post(*old(self), *final(self), address@, *lookup),
            match r {
                Some(k) => final(self).cached(address@) && k@ == final(self).account(address@).host_key@
                    && k@.len() == 32,
                None => !final(self).cached(address@),
            },
    {
        match self.resolve(address, lookup) {
            Some(i) => {
                proof {
                    assert(self.accounts@[i as int].wf());
                }
                Some(self.accounts[i].host_key.clone())
            },
            None => None,
        }
    }

    /// Translates an account field of a call; see `translated`.
    fn translate<F: Fn(Vec<u8>) -> Option<HostAccount>>(
        &mut self,
        flag: u8,
        key: Vec<u8>,
        lookup: &F,
    ) -> (r: Option<Vec<u8>>)
        requires
            old(self).wf(),
            key@.len() == 32,
            forall|k: Vec<u8>| lookup.requires((k,)),
        ensures
            final(self).wf(),
            final(self).grows(*old(self)),
            match r {
                Some(k) => translated(*final(self), flag, key@) == Some(k@) && k@.len() == 32,
                None => translated(*final(self), flag, key@) is None,
            },
    {
        if flag == 0 {
            return Some(key);
        }
        let address = copy_range(key.as_slice(), 12, 32);
        self.get_account_solana_address(&address, lookup)
    }

    fn call_invoke<F: Fn(Vec<u8>) -> Option<HostAccount>>(
        &mut self,
        input: &Vec<u8>,
        lookup: &F,
    ) -> (r: CallOutcome)
        requires
            old(self).wf(),
            input@.len() >= 1,
            forall|k: Vec<u8>| lookup.requires((k,)),
        ensures
            final(self).wf(),
            final(self).grows(*old(self)),
            invoke_possible(*final(self), input@) ==> (r matches CallOutcome::Invoke(c) && invoke_matches(
                *final(self),
                input@,
                c,
            )),
            !invoke_possible(*final(self), input@) ==> is_exit(r, ExitReason::InvalidRange, Seq::empty()),
    {
        let ghost s0 = *self;
        if input.len() < 35 {
            return error_exit();
        }
        let program_id = copy_range(input.as_slice(), 1, 33);
        let count: usize = input[33] as usize * 256 + input[34] as usize;
        if input.len() < 35 + 35 * count {
            return error_exit();
        }
        let mut accounts: Vec<AccountMeta> = Vec::new();
        let mut i: usize = 0;
        while i < count
            invariant
                self.wf(),
                self.grows(s0),
                s0 == *old(self),
                forall|k: Vec<u8>| lookup.requires((k,)),
                input@.len() >= 35 + 35 * count,
                count == invoke_count(input@),
                i <= count,
                accounts@.len() == i,
                forall|j: int|
                    0 <= j < i ==> {
                        let d = descriptor(input@, j);
                        &&& translated(*self, d[0], d.subrange(3, 35)) == Some((#[trigger] accounts@[j]).pubkey@)
                        &&& accounts@[j].is_signer == (d[1] != 0)
                        &&& accounts@[j].is_writable == (d[2] != 0)
                    },
            decreases count - i,
        {
            assert(35 + 35 * i + 35 <= 35 + 35 * count) by (nonlinear_arith)
                requires
                    i < count,
            ;
            let off: usize = 35 + 35 * i;
            let ghost d = descriptor(input@, i as int);
            let key = copy_range(input.as_slice(), off + 3, off + 35);
            proof {
                assert(key@ =~= d.subrange(3, 35));
            }
            let ghost before = *self;
            match self.translate(input[off], key, lookup) {
                Some(k) => {
                    proof {
                        assert forall|j: int| 0 <= j < i implies {
                            let dj = descriptor(input@, j);
                            translated(*self, dj[0], dj.subrange(3, 35)) == Some((#[trigger] accounts@[j]).pubkey@)
                        } by {
                            let dj = descriptor(input@, j);
                            assert(translated(before, dj[0], dj.subrange(3, 35)) == Some(accounts@[j].pubkey@));
                            lemma_translated_stays(before, *self, dj[0], dj.subrange(3, 35));
                        }
                        lemma_grows_trans(s0, before, *self);
                    }
                    accounts.push(AccountMeta { pubkey: k, is_signer: input[off + 1] != 0, is_writable: input[off + 2] != 0 });
                },
                None => {
                    proof {
                        lemma_grows_trans(s0, before, *self);
                        assert(d[0] == input@[off as int]);
                        assert(translated(*self, descriptor(input@, i as int)[0], descriptor(input@, i as int).subrange(3, 35)) is None);
                        assert(!invoke_possible(*self, input@));
                    }
                    return error_exit();
                },
            }
            i = i + 1;
        }
        let data = copy_range(input.as_slice(), 35 + 35 * count, input.len());
        let ghost before_contract = *self;
        let contract_id = self.contract_id.clone();
        let ci = match self.resolve(&contract_id, lookup) {
            Some(ci) => ci,
            None => {
                proof {
                    lemma_grows_trans(s0, before_contract, *self);
                }
                return error_exit();
            },
        };
        let contract_seeds = seed_set(&self.accounts[ci]);
        let ghost contract_acc = self.accounts@[ci as int];
        let ghost before_caller = *self;
        let caller_id = self.caller_id.clone();
        let mut signer_seeds: Vec<Vec<Vec<u8>>> = Vec::new();
        match self.resolve(&caller_id, lookup) {
            Some(ki) => {
                signer_seeds.push(seed_set(&self.accounts[ki]));
            },
            None => {},
        }
        signer_seeds.push(contract_seeds);
        proof {
            lemma_grows_trans(s0, before_contract, before_caller);
            lemma_grows_trans(s0, before_caller, *self);
            lemma_grows_trans(before_contract, before_caller, *self);
            assert(before_caller.cached(contract_id@));
            assert forall|j: int| 0 <= j < count implies {
                let dj = descriptor(input@, j);
                translated(*self, dj[0], dj.subrange(3, 35)) == Some((#[trigger] accounts@[j]).pubkey@)
            } by {
                let dj = descriptor(input@, j);
                assert(translated(before_contract, dj[0], dj.subrange(3, 35)) == Some(accounts@[j].pubkey@));
                lemma_translated_stays(before_contract, *self, dj[0], dj.subrange(3, 35));
            }
            assert forall|j: int| 0 <= j < invoke_count(input@) implies translated(
                *self,
                (#[trigger] descriptor(input@, j))[0],
                descriptor(input@, j).subrange(3, 35),
            ) is Some by {
                let dj = descriptor(input@, j);
                assert(translated(*self, dj[0], dj.subrange(3, 35)) == Some(accounts@[j].pubkey@));
            }
        }
        CallOutcome::Invoke(CrossProgramCall { program_id, accounts, data, signer_seeds })
    }

    fn call_derive<F: Fn(Vec<u8>) -> Option<HostAccount>>(
        &mut self,
        input: &Vec<u8>,
        lookup: &F,
    ) -> (r: CallOutcome)
        requires
            old(self).wf(),
            input@.len() >= 1,
            forall|k: Vec<u8>| lookup.requires((k,)),
        ensures
            final(self).wf(),
            final(self).grows(*old(self)),
            match derive_result(*final(self), input@) {
                Some(k) => is_exit(r, ExitReason::Returned, k),
                None => is_exit(r, ExitReason::InvalidRange, Seq::empty()),
            },
    {
        let ghost s0 = *self;
        if input.len() < 67 {
            return error_exit();
        }
        let base_key = copy_range(input.as_slice(), 3, 35);
        let owner_key = copy_range(input.as_slice(), 35, 67);
        let base = match self.translate(input[1], base_key, lookup) {
            Some(k) => k,
            None => return error_exit(),
        };
        let ghost s1 = *self;
        let owner = match self.translate(input[2], owner_key, lookup) {
            Some(k) => k,
            None => {
                proof {
                    lemma_grows_trans(s0, s1, *self);
                }
                return error_exit();
            },
        };
        proof {
            lemma_grows_trans(s0, s1, *self);
            lemma_translated_stays(s1, *self, input@[1], input@.subrange(3, 35));
        }
        let seed_bytes = copy_range(input.as_slice(), 67, input.len());
        let seed = match utf8_decode(seed_bytes.as_slice()) {
            Some(t) => t,
            None => return error_exit(),
        };
        match create_with_seed(&base, seed.as_str(), &owner) {
            Some(k) => CallOutcome::Exit { reason: ExitReason::Returned, output: k },
            None => error_exit(),
        }
    }

    /// Handles a call that contract code makes: declines (`None`) unless it
    /// goes to the host-call address. Input byte 0 selects the request:
    /// 0 invokes a host program (32-byte program id, a two-byte big-endian
    /// account count, 35 bytes per account, then the instruction data),
    /// signed by the contract's, and where it is cached the caller's,
    /// derived keys; 1 derives a key from a base and an owner (a translate
    /// flag each, then 32 bytes each) and a text seed (the rest). Anything
    /// else, and any failure, ends in `InvalidRange`.
    pub fn call_inner<F: Fn(Vec<u8>) -> Option<HostAccount>>(
        &mut self,
        code_address: &Vec<u8>,
        input: &Vec<u8>,
        lookup: &F,
    ) -> (r: Option<CallOutcome>)
        requires
            old(self).wf(),
            forall|k: Vec<u8>| lookup.requires((k,)),
        ensures
            final(self).wf(),
            final(self).grows(*old(self)),
            code_address@ != system_address() ==> r is None && *final(self) == *old(self),
            code_address@ == system_address() ==> match r {
                None => false,
                Some(o) => if input@.len() == 0 {
                    is_exit(o, ExitReason::InvalidRange, Seq::empty())
                } else if input@[0] == 0 {
                    if invoke_possible(*final(self), input@) {
                        o matches CallOutcome::Invoke(c) && invoke_matches(*final(self), input@, c)
                    } else {
                        is_exit(o, ExitReason::InvalidRange, Seq::empty())
                    }
                } else if input@[0] == 1 {
                    match derive_result(*final(self), input@) {
                        Some(k) => is_exit(o, ExitReason::Returned, k),
                        None => is_exit(o, ExitReason::InvalidRange, Seq::empty()),
                    }
                } else {
                    is_exit(o, ExitReason::InvalidRange, Seq::empty())
                },
            },
    {
        let sys = system_address_vec();
        if !bytes_eq(code_address, &sys) {
            return None;
        }
        if input.len() == 0 {
            return Some(error_exit());
        }
        if input[0] == 0 {
            Some(self.call_invoke(input, lookup))
        } else if input[0] == 1 {
            Some(self.call_derive(input, lookup))
        } else {
            Some(error_exit())
        }
    }
}

/// The foreign address that a host key stands for: its last 20 bytes.
pub fn solidity_address(key: &Vec<u8>) -> (r: Vec<u8>)
    requires
        key@.len() == 32,
    ensures
        r@ == key@.subrange(12, 32),
{
    copy_range(key.as_slice(), 12, 32)
}


/// What a getter of the contract's or the caller's account returns: a field
/// of the account cached for `id`, if any.
pub open spec fn field_of<T>(b: SolanaBackend, id: Seq<u8>, f: spec_fn(Account) -> T) -> Option<T> {
    if b.cached(id) {
        Some(f(b.account(id)))
    } else {
        None
    }
}

impl SolanaBackend {
    /// The host-call address.
    pub fn system_account() -> (r: Vec<u8>)
        ensures
            r@ == system_address(),
    {
        system_address_vec()
    }

    /// A backend that looks accounts up by derived key, from `base_account`
    /// under `program_id`; nothing is cached yet.
    pub fn new_emulator(
        base_account: Vec<u8>,
        program_id: Vec<u8>,
        contract_id: Vec<u8>,
        caller_id: Vec<u8>,
        slot: u64,
        timestamp: i64,
    ) -> (r: SolanaBackend)
        requires
            base_account@.len() == 32,
            program_id@.len() == 32,
            contract_id@.len() == 20,
            caller_id@.len() == 20,
        ensures
            r.wf(),
            r.accounts@.len() == 0,
            r.new_accounts@.len() == 0,
            r.host_keys@.len() == 0,
            r.mode == (Mode::Emulator { base: base_account }),
            r.program_id == program_id,
            r.contract_id == contract_id,
            r.caller_id == caller_id,
            r.block_number == slot,
            r.block_timestamp == timestamp,
    {
        SolanaBackend {
            accounts: Vec::new(),
            new_accounts: Vec::new(),
            host_keys: Vec::new(),
            mode: Mode::Emulator { base: base_account },
            program_id,
            contract_id,
            caller_id,
            block_number: slot,
            block_timestamp: timestamp,
        }
    }

    pub fn origin(&self) -> (r: Vec<u8>)
        ensures
            r@ == self.contract_id@,
    {
        self.contract_id.clone()
    }

    pub fn block_number(&self) -> (r: u64)
        ensures
            r == self.block_number,
    {
        self.block_number
    }

    pub fn block_timestamp(&self) -> (r: i64)
        ensures
            r == self.block_timestamp,
    {
        self.block_timestamp
    }

    /// The foreign address that the contract's account data names.
    pub fn get_contract_ether<F: Fn(Vec<u8>) -> Option<HostAccount>>(&mut self, lookup: &F) -> (r: Option<Vec<u8>>)
        requires
            old(self).wf(),
            forall|k: Vec<u8>| lookup.requires((k,)),
        ensures
            final(self).wf(),
            resolve_post(*old(self), *final(self), old(self).contract_id@, *lookup),
            match r {
                Some(a) => final(self).cached(final(self).contract_id@) && a@ == final(self).account(
                    final(self).contract_id@,
                ).data.ether@,
                None => !final(self).cached(final(self).contract_id@),
            },
    {
        let id = self.contract_id.clone();
        match self.resolve(&id, lookup) {
            Some(i) => Some(self.accounts[i].data.ether.clone()),
            None => None,
        }
    }

    /// The bump nonce of the contract's derived key.
    pub fn get_contract_nonce<F: Fn(Vec<u8>) -> Option<HostAccount>>(&mut self, lookup: &F) -> (r: Option<u8>)
        requires
            old(self).wf(),
            forall|k: Vec<u8>| lookup.requires((k,)),
        ensures
            final(self).wf(),
            resolve_post(*old(self), *final(self), old(self).contract_id@, *lookup),
            r == field_of(*final(self), final(self).contract_id@, |acc: Account| acc.data.nonce),
    {
        let id = self.contract_id.clone();
        match self.resolve(&id, lookup) {
            Some(i) => Some(self.accounts[i].data.nonce),
            None => None,
        }
    }

    /// The foreign address that the caller's account data names.
    pub fn get_caller_ether<F: Fn(Vec<u8>) -> Option<HostAccount>>(&mut self, lookup: &F) -> (r: Option<Vec<u8>>)
        requires
            old(self).wf(),
            forall|k: Vec<u8>| lookup.requires((k,)),
        ensures
            final(self).wf(),
            resolve_post(*old(self), *final(self), old(self).caller_id@, *lookup),
            match r {
                Some(a) => final(self).cached(final(self).caller_id@) && a@ == final(self).account(
                    final(self).caller_id@,
                ).data.ether@,
                None => !final(self).cached(final(self).caller_id@),
            },
    {
        let id = self.caller_id.clone();
        match self.resolve(&id, lookup) {
            Some(i) => Some(self.accounts[i].data.ether.clone()),
            None => None,
        }
    }

    /// The bump nonce of the caller's derived key.
    pub fn get_caller_nonce<F: Fn(Vec<u8>) -> Option<HostAccount>>(&mut self, lookup: &F) -> (r: Option<u8>)
        requires
            old(self).wf(),
            forall|k: Vec<u8>| lookup.requires((k,)),
        ensures
            final(self).wf(),
            resolve_post(*old(self), *final(self), old(self).caller_id@, *lookup),
            r == field_of(*final(self), final(self).caller_id@, |acc: Account| acc.data.nonce),
    {
        let id = self.caller_id.clone();
        match self.resolve(&id, lookup) {
            Some(i) => Some(self.accounts[i].data.nonce),
            None => None,
        }
    }

    /// The key that signs for the caller.
    pub fn get_caller_signer<F: Fn(Vec<u8>) -> Option<HostAccount>>(&mut self, lookup: &F) -> (r: Option<Vec<u8>>)
        requires
            old(self).wf(),
            forall|k: Vec<u8>| lookup.requires((k,)),
        ensures
            final(self).wf(),
            resolve_post(*old(self), *final(self), old(self).caller_id@, *lookup),
            match r {
                Some(a) => final(self).cached(final(self).caller_id@) && a@ == final(self).account(
                    final(self).caller_id@,
                ).data.signer@,
                None => !final(self).cached(final(self).caller_id@),
            },
    {
        let id = self.caller_id.clone();
        match self.resolve(&id, lookup) {
            Some(i) => Some(self.accounts[i].data.signer.clone()),
            None => None,
        }
    }
}

/// Resolving an address a second time changes nothing: no second lookup
/// leaves a trace, and the same account stays cached.
pub proof fn lemma_resolve_idempotent<F: Fn(Vec<u8>) -> Option<HostAccount>>(
    b0: SolanaBackend,
    b1: SolanaBackend,
    b2: SolanaBackend,
    a: Seq<u8>,
    lookup: F,
)
    requires
        b0.wf(),
        b1.resolved(a),
        resolve_post(b0, b1, a, lookup),
        resolve_post(b1, b2, a, lookup),
    ensures
        b2 == b1,
        b2.cached(a) == b1.cached(a),
        b1.cached(a) ==> b2.account(a) == b1.account(a),
{
}

} // verus!
