use vstd::prelude::*;
use crate::codec::{
    Item, RLPField, models, parse_item, encode_item, encode_items, wf_item, wf_items, be_num,
    be_min, pow256, fits_length, length_prefix, lemma_round_trip, lemma_be_min, be_min_bytes,
};
use crate::word::{U256, zeros, zpad_spec, strip_zeros, secp256k1_n, lemma_zpad_strip};
use crate::external::{keccak256, keccak256_of, recover_public_key, secp256k1_recovered};

verus! {

/// A byte string.
#[derive(Debug)]
pub struct Bytes(pub Vec<u8>);

impl From<Vec<u8>> for Bytes {
    fn from(s: Vec<u8>) -> (r: Bytes)
        ensures
            r.0@ == s@,
    {
        Bytes(s)
    }
}

impl vstd::std_specs::convert::FromSpecImpl<Vec<u8>> for Bytes {
    open spec fn obeys_from_spec() -> bool {
        true
    }

    open spec fn from_spec(s: Vec<u8>) -> Bytes {
        Bytes(s)
    }
}

/// Why a transaction could not be decoded.
#[derive(Debug, Clone, Copy, PartialEq, Eq, Structural)]
pub enum DecoderError {
    /// The input does not hold a complete, well-formed field.
    RlpIsTooShort,
    /// A number does not fit its field.
    RlpIsTooBig,
    /// The top-level field is not a list.
    RlpExpectedToBeList,
    /// A list stands where a scalar is expected.
    RlpExpectedToBeData,
    /// The list does not have the expected number of fields.
    RlpIncorrectListLen,
    /// Bytes follow the top-level field.
    RlpInconsistentLengthAndData,
    /// An address field is neither empty nor 20 bytes long.
    RlpInvalidLength,
}

/// Why the sender of a transaction could not be recovered.
#[derive(Debug, Clone, Copy, PartialEq, Eq, Structural)]
pub enum GetTxError {
    InvalidNetworkId,
    InvalidV,
    InvalidSignatureValues,
    RecoveryIdFail,
}

/// An Ethereum transaction. `from` is not transmitted: decoding leaves it
/// zero.
#[derive(Debug)]
pub struct Transaction {
    pub from: Vec<u8>,
    pub to: Option<Vec<u8>>,
    pub nonce: U256,
    pub gas: U256,
    pub gas_price: U256,
    pub value: U256,
    pub data: Bytes,
}

/// A transaction with its signature: `v` carries the recovery id and,
/// from 35 on, the chain id.
#[derive(Debug)]
pub struct SignedTransaction {
    pub transaction: Transaction,
    pub v: u64,
    pub r: U256,
    pub s: U256,
}

/// The transmitted fields of a transaction.
pub struct TxView {
    pub nonce: Seq<u8>,
    pub gas_price: Seq<u8>,
    pub gas: Seq<u8>,
    pub to: Option<Seq<u8>>,
    pub value: Seq<u8>,
    pub data: Seq<u8>,
}

pub struct SignedView {
    pub tx: TxView,
    pub v: u64,
    pub r: Seq<u8>,
    pub s: Seq<u8>,
}

pub open spec fn opt_view(a: Option<Vec<u8>>) -> Option<Seq<u8>> {
    match a {
        Some(v) => Some(v@),
        None => None,
    }
}

/// The largest data payload that the encoding of a transaction carries.
pub open spec fn max_data_len() -> nat {
    0xffff_ffff
}

impl Transaction {
    pub open spec fn wf(self) -> bool {
        &&& self.from@.len() == 20
        &&& (self.to matches Some(a) ==> a@.len() == 20)
        &&& self.nonce.wf()
        &&& self.gas.wf()
        &&& self.gas_price.wf()
        &&& self.value.wf()
    }

    /// Short enough that every length in its encoding fits in 64 bits.
    pub open spec fn encodable(self) -> bool {
        self.data.0@.len() <= max_data_len()
    }

    pub open spec fn view(self) -> TxView {
        TxView {
            nonce: self.nonce.be@,
            gas_price: self.gas_price.be@,
            gas: self.gas.be@,
            to: opt_view(self.to),
            value: self.value.be@,
            data: self.data.0@,
        }
    }
}

impl SignedTransaction {
    pub open spec fn wf(self) -> bool {
        &&& self.transaction.wf()
        &&& self.r.wf()
        &&& self.s.wf()
    }

    pub open spec fn view(self) -> SignedView {
        SignedView { tx: self.transaction.view(), v: self.v, r: self.r.be@, s: self.s.be@ }
    }
}

// ---- Canonical encoding of the fields ----
/// A byte string as an item: a single byte below 0x80 stands for itself.
pub open spec fn bytes_item(b: Seq<u8>) -> Item {
    if b.len() == 1 && b[0] < 0x80 {
        Item::Int(b[0] as u64)
    } else {
        Item::Bytes(b)
    }
}

/// A 256-bit word as an item: its minimal big-endian bytes.
pub open spec fn word_item(w: Seq<u8>) -> Item {
    bytes_item(strip_zeros(w))
}

/// The recipient as an item: empty for contract creation.
pub open spec fn to_item(to: Option<Seq<u8>>) -> Item {
    match to {
        None => Item::Bytes(Seq::empty()),
        Some(a) => Item::Bytes(a),
    }
}

pub open spec fn u64_item(v: u64) -> Item {
    bytes_item(be_min(v as nat))
}

/// The six transmitted fields, in order, as items.
pub open spec fn unsigned_items(t: TxView) -> Seq<Item> {
    seq![
        word_item(t.nonce),
        word_item(t.gas_price),
        word_item(t.gas),
        to_item(t.to),
        word_item(t.value),
        bytes_item(t.data),
    ]
}

pub open spec fn signed_items(t: SignedView) -> Seq<Item> {
    unsigned_items(t.tx) + seq![u64_item(t.v), word_item(t.r), word_item(t.s)]
}

/// The encoding of the unsigned transaction: the preimage of its signing
/// hash.
pub open spec fn unsigned_encoding(t: TxView) -> Seq<u8> {
    encode_item(Item::List(unsigned_items(t)))
}

// ---- Decoding of the fields ----
pub open spec fn word_of(it: Item) -> Result<Seq<u8>, DecoderError> {
    match it {
        Item::Int(v) => Ok(zpad_spec(seq![v as u8], 32)),
        Item::Bytes(b) => if b.len() <= 32 {
            Ok(zpad_spec(b, 32))
        } else {
            Err(DecoderError::RlpIsTooBig)
        },
        Item::List(_) => Err(DecoderError::RlpExpectedToBeData),
    }
}

pub open spec fn u64_of(it: Item) -> Result<u64, DecoderError> {
    match it {
        Item::Int(v) => Ok(v),
        Item::Bytes(b) => if b.len() <= 8 {
            Ok(be_num(b) as u64)
        } else {
            Err(DecoderError::RlpIsTooBig)
        },
        Item::List(_) => Err(DecoderError::RlpExpectedToBeData),
    }
}

pub open spec fn bytes_of(it: Item) -> Result<Seq<u8>, DecoderError> {
    match it {
        Item::Int(v) => Ok(seq![v as u8]),
        Item::Bytes(b) => Ok(b),
        Item::List(_) => Err(DecoderError::RlpExpectedToBeData),
    }
}

pub open spec fn to_of(it: Item) -> Result<Option<Seq<u8>>, DecoderError> {
    match it {
        Item::Bytes(b) => if b.len() == 0 {
            Ok(None)
        } else if b.len() == 20 {
            Ok(Some(b))
        } else {
            Err(DecoderError::RlpInvalidLength)
        },
        Item::Int(_) => Err(DecoderError::RlpInvalidLength),
        Item::List(_) => Err(DecoderError::RlpExpectedToBeData),
    }
}

/// The items of the list that `s` holds, which must be all of `s` and have
/// `count` items.
pub open spec fn decode_list(s: Seq<u8>, count: nat) -> Result<Seq<Item>, DecoderError> {
    match parse_item(s) {
        None => Err(DecoderError::RlpIsTooShort),
        Some((it, n)) => if n != s.len() {
            Err(DecoderError::RlpInconsistentLengthAndData)
        } else {
            match it {
                Item::List(items) => if items.len() == count {
                    Ok(items)
                } else {
                    Err(DecoderError::RlpIncorrectListLen)
                },
                _ => Err(DecoderError::RlpExpectedToBeList),
            }
        },
    }
}

/// The six transaction fields at the start of `items`, read in order; the
/// first field that does not read gives the error.
pub open spec fn fields_of(items: Seq<Item>) -> Result<TxView, DecoderError> {
    if word_of(items[0]) is Err {
        Err(word_of(items[0])->Err_0)
    } else if word_of(items[1]) is Err {
        Err(word_of(items[1])->Err_0)
    } else if word_of(items[2]) is Err {
        Err(word_of(items[2])->Err_0)
    } else if to_of(items[3]) is Err {
        Err(to_of(items[3])->Err_0)
    } else if word_of(items[4]) is Err {
        Err(word_of(items[4])->Err_0)
    } else if bytes_of(items[5]) is Err {
        Err(bytes_of(items[5])->Err_0)
    } else {
        Ok(
            TxView {
                nonce: word_of(items[0])->Ok_0,
                gas_price: word_of(items[1])->Ok_0,
                gas: word_of(items[2])->Ok_0,
                to: to_of(items[3])->Ok_0,
                value: word_of(items[4])->Ok_0,
                data: bytes_of(items[5])->Ok_0,
            },
        )
    }
}

/// What decoding an unsigned transaction (six fields) gives.
pub open spec fn decode_unsigned_spec(s: Seq<u8>) -> Result<TxView, DecoderError> {
    match decode_list(s, 6) {
        Err(e) => Err(e),
        Ok(items) => fields_of(items),
    }
}

/// What decoding a signed transaction (nine fields) gives.
pub open spec fn decode_signed_spec(s: Seq<u8>) -> Result<SignedView, DecoderError> {
    match decode_list(s, 9) {
        Err(e) => Err(e),
        Ok(items) => match fields_of(items) {
            Err(e) => Err(e),
            Ok(t) => if u64_of(items[6]) is Err {
                Err(u64_of(items[6])->Err_0)
            } else if word_of(items[7]) is Err {
                Err(word_of(items[7])->Err_0)
            } else if word_of(items[8]) is Err {
                Err(word_of(items[8])->Err_0)
            } else {
                Ok(
                    SignedView {
                        tx: t,
                        v: u64_of(items[6])->Ok_0,
                        r: word_of(items[7])->Ok_0,
                        s: word_of(items[8])->Ok_0,
                    },
                )
            },
        },
    }
}

// ---- Executable field codecs ----
fn bytes_field(b: &Vec<u8>) -> (r: RLPField)
    ensures
        r.model() == bytes_item(b@),
{
    if b.len() == 1 && b[0] < 0x80 {
        RLPField::Integer { value: b[0] as u64 }
    } else {
        RLPField::Data { data: b.clone() }
    }
}

fn word_field(w: &U256) -> (r: RLPField)
    requires
        w.wf(),
    ensures
        r.model() == word_item(w.be@),
{
    let b = w.minimal_bytes();
    bytes_field(&b)
}

fn to_field(to: &Option<Vec<u8>>) -> (r: RLPField)
    ensures
        r.model() == to_item(opt_view(*to)),
{
    match to {
        None => {
            let data: Vec<u8> = Vec::new();
            proof {
                assert(data@ =~= Seq::<u8>::empty());
            }
            RLPField::Data { data }
        },
        Some(a) => RLPField::Data { data: a.clone() },
    }
}

fn word_from(f: &RLPField) -> (r: Result<U256, DecoderError>)
    ensures
        match r {
            Ok(w) => word_of(f.model()) == Result::<_, DecoderError>::Ok(w.be@) && w.wf(),
            Err(e) => word_of(f.model()) == Result::<Seq<u8>, DecoderError>::Err(e),
        },
{
    match f {
        RLPField::Integer { value } => {
            let b: Vec<u8> = vec![*value as u8];
            proof {
                assert(b@ =~= seq![*value as u8]);
            }
            Ok(U256::from_big_endian(b.as_slice()))
        },
        RLPField::Data { data } => {
            if data.len() <= 32 {
                Ok(U256::from_big_endian(data.as_slice()))
            } else {
                Err(DecoderError::RlpIsTooBig)
            }
        },
        RLPField::List { .. } => Err(DecoderError::RlpExpectedToBeData),
    }
}

fn u64_from(f: &RLPField) -> (r: Result<u64, DecoderError>)
    ensures
        r == u64_of(f.model()),
{
    match f {
        RLPField::Integer { value } => Ok(*value),
        RLPField::Data { data } => {
            if data.len() <= 8 {
                proof {
                    assert(data@.subrange(0, data@.len() as int) =~= data@);
                    crate::codec::lemma_be_num_bound(data@);
                    crate::codec::lemma_pow256_mono(data@.len(), 8);
                    assert(pow256(8) == 0x1_0000_0000_0000_0000) by {
                        reveal_with_fuel(pow256, 9);
                    }
                }
                Ok(crate::codec::read_be(data.as_slice(), 0, data.len()))
            } else {
                Err(DecoderError::RlpIsTooBig)
            }
        },
        RLPField::List { .. } => Err(DecoderError::RlpExpectedToBeData),
    }
}

fn bytes_from(f: &RLPField) -> (r: Result<Vec<u8>, DecoderError>)
    ensures
        match r {
            Ok(b) => bytes_of(f.model()) == Result::<_, DecoderError>::Ok(b@),
            Err(e) => bytes_of(f.model()) == Result::<Seq<u8>, DecoderError>::Err(e),
        },
{
    match f {
        RLPField::Integer { value } => {
            let b: Vec<u8> = vec![*value as u8];
            proof {
                assert(b@ =~= seq![*value as u8]);
            }
            Ok(b)
        },
        RLPField::Data { data } => Ok(data.clone()),
        RLPField::List { .. } => Err(DecoderError::RlpExpectedToBeData),
    }
}

fn to_from(f: &RLPField) -> (r: Result<Option<Vec<u8>>, DecoderError>)
    ensures
        match r {
            Ok(a) => to_of(f.model()) == Result::<_, DecoderError>::Ok(opt_view(a)),
            Err(e) => to_of(f.model()) == Result::<Option<Seq<u8>>, DecoderError>::Err(e),
        },
{
    match f {
        RLPField::Data { data } => {
            if data.len() == 0 {
                Ok(None)
            } else if data.len() == 20 {
                Ok(Some(data.clone()))
            } else {
                Err(DecoderError::RlpInvalidLength)
            }
        },
        RLPField::Integer { .. } => Err(DecoderError::RlpInvalidLength),
        RLPField::List { .. } => Err(DecoderError::RlpExpectedToBeData),
    }
}

fn decode_items(bytes: &[u8], count: usize) -> (r: Result<Vec<RLPField>, DecoderError>)
    ensures
        match r {
            Ok(v) => decode_list(bytes@, count as nat) == Result::<_, DecoderError>::Ok(models(v@)),
            Err(e) => decode_list(bytes@, count as nat) == Result::<Seq<Item>, DecoderError>::Err(e),
        },
{
    match RLPField::unpack(bytes) {
        None => Err(DecoderError::RlpIsTooShort),
        Some((f, n)) => {
            if n != bytes.len() {
                return Err(DecoderError::RlpInconsistentLengthAndData);
            }
            match f {
                RLPField::List { list } => {
                    let ghost lv = list@;
                    proof {
                        assert(RLPField::List { list }.model()->List_0 =~= models(lv));
                    }
                    if list.len() == count {
                        Ok(list)
                    } else {
                        Err(DecoderError::RlpIncorrectListLen)
                    }
                },
                _ => Err(DecoderError::RlpExpectedToBeList),
            }
        },
    }
}

fn zero_address() -> (r: Vec<u8>)
    ensures
        r@ == zeros(20),
{
    let e: Vec<u8> = Vec::new();
    let r = crate::word::zpad(e.as_slice(), 20);
    proof {
        assert(r@ =~= zeros(20));
    }
    r
}

fn transaction_from(items: &Vec<RLPField>) -> (r: Result<Transaction, DecoderError>)
    requires
        items.len() >= 6,
    ensures
        match r {
            Ok(t) => fields_of(models(items@)) == Result::<_, DecoderError>::Ok(t.view()) && t.wf() && t.from@ == zeros(20),
            Err(e) => fields_of(models(items@)) == Result::<TxView, DecoderError>::Err(e),
        },
{
    let ghost ms = models(items@);
    let nonce = match word_from(&items[0]) {
        Ok(w) => w,
        Err(e) => return Err(e),
    };
    let gas_price = match word_from(&items[1]) {
        Ok(w) => w,
        Err(e) => return Err(e),
    };
    let gas = match word_from(&items[2]) {
        Ok(w) => w,
        Err(e) => return Err(e),
    };
    let to = match to_from(&items[3]) {
        Ok(a) => a,
        Err(e) => return Err(e),
    };
    let value = match word_from(&items[4]) {
        Ok(w) => w,
        Err(e) => return Err(e),
    };
    let data = match bytes_from(&items[5]) {
        Ok(b) => b,
        Err(e) => return Err(e),
    };
    let t = Transaction { from: zero_address(), to, nonce, gas, gas_price, value, data: Bytes(data) };
    Ok(t)
}

proof fn lemma_word_round_trip(w: Seq<u8>)
    requires
        w.len() == 32,
    ensures
        word_of(word_item(w)) == Result::<Seq<u8>, DecoderError>::Ok(w),
{
    lemma_zpad_strip(w);
    let b = strip_zeros(w);
    if b.len() == 1 && b[0] < 0x80 {
        assert(seq![b[0]] =~= b);
    }
}

proof fn lemma_bytes_item_len(b: Seq<u8>)
    requires
        b.len() <= max_data_len(),
    ensures
        wf_item(bytes_item(b)),
        !(bytes_item(b) is List),
        encode_item(bytes_item(b)).len() <= 9 + max_data_len(),
{
    if !(b.len() == 1 && b[0] < 0x80) && b.len() > 55 {
        assert(pow256(8) == 0x1_0000_0000_0000_0000) by {
            reveal_with_fuel(pow256, 9);
        }
        lemma_be_min(b.len(), 8);
    }
}

/// A list of scalar items, each with at most `max_data_len()` bytes,
/// is well formed, and its encoding is bounded.
proof fn lemma_flat_items(items: Seq<Item>)
    requires
        forall|i: int|
            0 <= i < items.len() ==> wf_item(#[trigger] items[i]) && !(items[i] is List)
                && encode_item(items[i]).len() <= 9 + max_data_len(),
    ensures
        wf_items(items),
        encode_items(items).len() <= items.len() * (9 + max_data_len()),
    decreases items.len(),
{
    if items.len() > 0 {
        let tail = items.subrange(1, items.len() as int);
        assert forall|i: int| 0 <= i < tail.len() implies wf_item(#[trigger] tail[i]) && !(
        tail[i] is List) && encode_item(tail[i]).len() <= 9 + max_data_len() by {
            assert(tail[i] == items[i + 1]);
        }
        lemma_flat_items(tail);
        assert(items[0] == items[0]);
        assert(encode_items(tail).len() + 9 + max_data_len() <= items.len() * (9
            + max_data_len())) by (nonlinear_arith)
            requires
                encode_items(tail).len() <= tail.len() * (9 + max_data_len()),
                tail.len() + 1 == items.len(),
        ;
    }
}

proof fn lemma_word_item(w: Seq<u8>)
    requires
        w.len() == 32,
    ensures
        wf_item(word_item(w)),
        !(word_item(w) is List),
        encode_item(word_item(w)).len() <= 9 + max_data_len(),
{
    lemma_zpad_strip(w);
    lemma_bytes_item_len(strip_zeros(w));
}

proof fn lemma_unsigned_items_wf(t: TxView)
    requires
        t.nonce.len() == 32,
        t.gas_price.len() == 32,
        t.gas.len() == 32,
        t.value.len() == 32,
        t.to matches Some(a) ==> a.len() == 20,
        t.data.len() <= max_data_len(),
    ensures
        wf_item(Item::List(unsigned_items(t))),
{
    let items = unsigned_items(t);
    lemma_word_item(t.nonce);
    lemma_word_item(t.gas_price);
    lemma_word_item(t.gas);
    lemma_word_item(t.value);
    lemma_bytes_item_len(t.data);
    assert(encode_item(to_item(t.to)).len() <= 9 + max_data_len());
    assert forall|i: int| 0 <= i < items.len() implies wf_item(#[trigger] items[i]) && !(
    items[i] is List) && encode_item(items[i]).len() <= 9 + max_data_len() by {
        if i == 3 {
            assert(wf_item(to_item(t.to)));
        }
    }
    lemma_flat_items(items);
}

/// Decoding the encoding of a transaction's six transmitted fields gives
/// back each of those fields.
pub proof fn lemma_transaction_round_trip(tx: Transaction)
    requires
        tx.wf(),
        tx.encodable(),
    ensures
        decode_unsigned_spec(unsigned_encoding(tx.view())) == Result::<TxView, DecoderError>::Ok(
            tx.view(),
        ),
{
    let t = tx.view();
    let items = unsigned_items(t);
    let e = unsigned_encoding(t);
    lemma_unsigned_items_wf(t);
    lemma_round_trip(Item::List(items), Seq::empty());
    assert(e + Seq::<u8>::empty() =~= e);
    assert(decode_list(e, 6) == Result::<Seq<Item>, DecoderError>::Ok(items));
    lemma_word_round_trip(t.nonce);
    lemma_word_round_trip(t.gas_price);
    lemma_word_round_trip(t.gas);
    lemma_word_round_trip(t.value);
    if t.data.len() == 1 && t.data[0] < 0x80 {
        assert(seq![t.data[0]] =~= t.data);
    }
    assert(items[0] == word_item(t.nonce));
    assert(items[5] == bytes_item(t.data));
    assert(fields_of(items) == Result::<TxView, DecoderError>::Ok(t));
}

/// A strict prefix of the encoding of a transaction does not decode.
pub proof fn lemma_truncated_fails(tx: Transaction, k: nat)
    requires
        tx.wf(),
        tx.encodable(),
        k < unsigned_encoding(tx.view()).len(),
    ensures
        decode_unsigned_spec(unsigned_encoding(tx.view()).subrange(0, k as int)) is Err,
{
    let t = tx.view();
    let items = unsigned_items(t);
    let e = unsigned_encoding(t);
    let p = e.subrange(0, k as int);
    let pl = encode_items(items);
    lemma_unsigned_items_wf(t);
    let pre = length_prefix(pl.len(), 0xc0);
    assert(e == pre + pl);
    if k > 0 {
        assert(p[0] == e[0]);
        if pl.len() > 55 {
            assert(pow256(8) == 0x1_0000_0000_0000_0000) by {
                reveal_with_fuel(pow256, 9);
            }
            lemma_be_min(pl.len(), 8);
            let ll = be_min(pl.len()).len();
            if 1 + ll <= k {
                assert(p.subrange(1, 1 + ll as int) =~= e.subrange(1, 1 + ll as int));
                assert(e.subrange(1, 1 + ll as int) =~= be_min(pl.len()));
            }
        }
        assert(parse_item(p) is None);
    }
}

impl Transaction {
    /// Decodes an unsigned transaction: a list of its six transmitted fields.
    pub fn decode(bytes: &[u8]) -> (r: Result<Transaction, DecoderError>)
        ensures
            match r {
                Ok(t) => decode_unsigned_spec(bytes@) == Result::<TxView, DecoderError>::Ok(
                    t.view(),
                ) && t.wf() && t.from@ == zeros(20),
                Err(e) => decode_unsigned_spec(bytes@) == Result::<TxView, DecoderError>::Err(e),
            },
    {
        let items = match decode_items(bytes, 6) {
            Ok(v) => v,
            Err(e) => return Err(e),
        };
        transaction_from(&items)
    }

    /// Encodes the six transmitted fields as a list: the preimage of the
    /// signing hash.
    pub fn encode(&self) -> (r: Vec<u8>)
        requires
            self.wf(),
            self.encodable(),
        ensures
            r@ == unsigned_encoding(self.view()),
    {
        let mut list: Vec<RLPField> = Vec::new();
        list.push(word_field(&self.nonce));
        list.push(word_field(&self.gas_price));
        list.push(word_field(&self.gas));
        list.push(to_field(&self.to));
        list.push(word_field(&self.value));
        list.push(bytes_field(&self.data.0));
        let ghost lv = list@;
        let f = RLPField::List { list };
        proof {
            assert(f.model()->List_0 =~= unsigned_items(self.view()));
            lemma_unsigned_items_wf(self.view());
        }
        f.pack()
    }

    /// The Keccak-256 digest of the encoding of the transmitted fields.
    pub fn signing_hash(&self) -> (r: Vec<u8>)
        requires
            self.wf(),
            self.encodable(),
        ensures
            r@ == keccak256_of(unsigned_encoding(self.view())),
            r@.len() == 32,
    {
        let e = self.encode();
        keccak256(e.as_slice())
    }
}

impl SignedTransaction {
    /// Decodes a signed transaction: a list of nine fields, the six of the
    /// transaction, then v, r and s.
    pub fn decode(bytes: &[u8]) -> (r: Result<SignedTransaction, DecoderError>)
        ensures
            match r {
                Ok(t) => decode_signed_spec(bytes@) == Result::<SignedView, DecoderError>::Ok(
                    t.view(),
                ) && t.wf() && t.transaction.from@ == zeros(20),
                Err(e) => decode_signed_spec(bytes@) == Result::<SignedView, DecoderError>::Err(e),
            },
    {
        let items = match decode_items(bytes, 9) {
            Ok(v) => v,
            Err(e) => return Err(e),
        };
        let transaction = match transaction_from(&items) {
            Ok(t) => t,
            Err(e) => return Err(e),
        };
        let v = match u64_from(&items[6]) {
            Ok(v) => v,
            Err(e) => return Err(e),
        };
        let r = match word_from(&items[7]) {
            Ok(w) => w,
            Err(e) => return Err(e),
        };
        let s = match word_from(&items[8]) {
            Ok(w) => w,
            Err(e) => return Err(e),
        };
        Ok(SignedTransaction { transaction, v, r, s })
    }

    /// Encodes the nine fields as a list.
    pub fn encode(&self) -> (r: Vec<u8>)
        requires
            self.wf(),
            self.transaction.encodable(),
        ensures
            r@ == encode_item(Item::List(signed_items(self.view()))),
    {
        let mut list: Vec<RLPField> = Vec::new();
        list.push(word_field(&self.transaction.nonce));
        list.push(word_field(&self.transaction.gas_price));
        list.push(word_field(&self.transaction.gas));
        list.push(to_field(&self.transaction.to));
        list.push(word_field(&self.transaction.value));
        list.push(bytes_field(&self.transaction.data.0));
        let vb = be_min_bytes(self.v);
        list.push(bytes_field(&vb));
        list.push(word_field(&self.r));
        list.push(word_field(&self.s));
        let f = RLPField::List { list };
        proof {
            let items = signed_items(self.view());
            assert(f.model()->List_0 =~= items);
            lemma_word_item(self.transaction.nonce.be@);
            lemma_word_item(self.transaction.gas_price.be@);
            lemma_word_item(self.transaction.gas.be@);
            lemma_word_item(self.transaction.value.be@);
            lemma_word_item(self.r.be@);
            lemma_word_item(self.s.be@);
            lemma_bytes_item_len(self.transaction.data.0@);
            assert(pow256(8) == 0x1_0000_0000_0000_0000) by {
                reveal_with_fuel(pow256, 9);
            }
            lemma_be_min(self.v as nat, 8);
            lemma_bytes_item_len(be_min(self.v as nat));
            assert forall|i: int| 0 <= i < items.len() implies wf_item(#[trigger] items[i]) && !(
            items[i] is List) && encode_item(items[i]).len() <= 9 + max_data_len() by {
                if i == 3 {
                    assert(wf_item(to_item(opt_view(self.transaction.to))));
                }
            }
            lemma_flat_items(items);
        }
        f.pack()
    }
}

/// What the fast path reads from a raw transaction: the nonce, the 20-byte
/// recipient and the data, where the input starts with a list of at least
/// six fields of those kinds.
pub open spec fn data_opt_spec(s: Seq<u8>) -> Option<(u64, Seq<u8>, Seq<u8>)> {
    match parse_item(s) {
        Some((Item::List(items), _)) => if items.len() >= 6 && u64_of(items[0]) is Ok && (
        items[3] is Bytes) && items[3]->Bytes_0.len() == 20 && bytes_of(items[5]) is Ok {
            Some((u64_of(items[0])->Ok_0, items[3]->Bytes_0, bytes_of(items[5])->Ok_0))
        } else {
            None
        },
        _ => None,
    }
}

/// Reads the nonce, the recipient and the data of a raw transaction without
/// decoding the rest.
pub fn get_data_opt(raw_tx: &[u8]) -> (r: Option<(u64, Vec<u8>, Vec<u8>)>)
    ensures
        match r {
            Some((nonce, to, data)) => data_opt_spec(raw_tx@) == Some((nonce, to@, data@)),
            None => data_opt_spec(raw_tx@) is None,
        },
{
    let (f, _) = match RLPField::unpack(raw_tx) {
        Some(p) => p,
        None => return None,
    };
    match f {
        RLPField::List { list } => {
            proof {
                assert(RLPField::List { list }.model()->List_0 =~= models(list@));
            }
            if list.len() < 6 {
                return None;
            }
            let nonce = match u64_from(&list[0]) {
                Ok(v) => v,
                Err(_) => return None,
            };
            let to = match &list[3] {
                RLPField::Data { data } => {
                    if data.len() == 20 {
                        data.clone()
                    } else {
                        return None;
                    }
                },
                _ => return None,
            };
            let data = match bytes_from(&list[5]) {
                Ok(b) => b,
                Err(_) => return None,
            };
            Some((nonce, to, data))
        },
        _ => None,
    }
}

} // verus!
