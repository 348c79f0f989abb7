use vstd::prelude::*;
use crate::codec::{be_num, be_min, pow256, be_min_bytes, lemma_be_min, lemma_be_num_bound};

verus! {

/// `n` zero bytes.
pub open spec fn zeros(n: nat) -> Seq<u8> {
    Seq::new(n, |i: int| 0u8)
}

/// `b` with zeros in front up to `len` bytes; unchanged when it is as long.
pub open spec fn zpad_spec(b: Seq<u8>, len: nat) -> Seq<u8> {
    if b.len() >= len {
        b
    } else {
        zeros((len - b.len()) as nat) + b
    }
}

/// `s` without its leading zero bytes.
pub open spec fn strip_zeros(s: Seq<u8>) -> Seq<u8>
    decreases s.len(),
{
    if s.len() > 0 && s[0] == 0 {
        strip_zeros(s.subrange(1, s.len() as int))
    } else {
        s
    }
}

/// The big-endian bytes of the order of the secp256k1 group.
pub open spec fn secp256k1_n_bytes() -> Seq<u8> {
    seq![
        0xffu8, 0xff, 0xff, 0xff, 0xff, 0xff, 0xff, 0xff, 0xff, 0xff, 0xff, 0xff, 0xff, 0xff,
        0xff, 0xfe, 0xba, 0xae, 0xdc, 0xe6, 0xaf, 0x48, 0xa0, 0x3b, 0xbf, 0xd2, 0x5e, 0x8c,
        0xd0, 0x36, 0x41, 0x41,
    ]
}

/// The order of the secp256k1 group.
pub open spec fn secp256k1_n() -> nat {
    be_num(secp256k1_n_bytes())
}

/// An unsigned 256-bit integer, held as 32 big-endian bytes.
#[derive(Debug)]
pub struct U256 {
    pub be: Vec<u8>,
}

impl U256 {
    pub open spec fn wf(self) -> bool {
        self.be@.len() == 32
    }

    pub open spec fn value(self) -> nat {
        be_num(self.be@)
    }
}

pub proof fn lemma_be_num_concat(p: Seq<u8>, q: Seq<u8>)
    ensures
        be_num(p + q) == be_num(p) * pow256(q.len()) + be_num(q),
    decreases q.len(),
{
    if q.len() == 0 {
        assert(p + q =~= p);
        assert(pow256(0) == 1);
        assert(be_num(q) == 0);
        assert(be_num(p) * 1 == be_num(p)) by (nonlinear_arith);
    } else {
        let q0 = q.drop_last();
        assert((p + q).drop_last() =~= p + q0);
        lemma_be_num_concat(p, q0);
        let a = be_num(p);
        let k = pow256(q0.len());
        let b = be_num(q0);
        let l = q.last() as nat;
        assert((p + q).last() == q.last());
        assert(pow256(q.len()) == 256 * k);
        assert(be_num(p + q) == be_num((p + q).drop_last()) * 256 + (p + q).last() as nat);
        assert(be_num(q) == b * 256 + l);
        assert((a * k + b) * 256 + l == a * (256 * k) + (b * 256 + l)) by (nonlinear_arith);
    }
}

pub proof fn lemma_be_num_zeros(n: nat)
    ensures
        be_num(zeros(n)) == 0,
    decreases n,
{
    if n > 0 {
        assert(zeros(n).drop_last() =~= zeros((n - 1) as nat));
        lemma_be_num_zeros((n - 1) as nat);
    }
}

pub proof fn lemma_be_num_zero_iff(s: Seq<u8>)
    ensures
        be_num(s) == 0 <==> (forall|i: int| 0 <= i < s.len() ==> s[i] == 0),
    decreases s.len(),
{
    if s.len() > 0 {
        lemma_be_num_zero_iff(s.drop_last());
        if be_num(s) == 0 {
            assert forall|i: int| 0 <= i < s.len() implies s[i] == 0 by {
                if i < s.len() - 1 {
                    assert(s[i] == s.drop_last()[i]);
                }
            }
        }
        if forall|i: int| 0 <= i < s.len() ==> s[i] == 0 {
            assert forall|i: int| 0 <= i < s.drop_last().len() implies s.drop_last()[i] == 0 by {
                assert(s.drop_last()[i] == s[i]);
            }
        }
    }
}

/// Where two strings of one length first differ, the larger byte gives the
/// larger number.
pub proof fn lemma_be_num_lex(a: Seq<u8>, b: Seq<u8>, i: int)
    requires
        a.len() == b.len(),
        0 <= i < a.len(),
        a.subrange(0, i) == b.subrange(0, i),
        a[i] > b[i],
    ensures
        be_num(a) > be_num(b),
{
    let n = a.len() as int;
    let p = a.subrange(0, i);
    let qa = a.subrange(i + 1, n);
    let qb = b.subrange(i + 1, n);
    assert(a =~= p.push(a[i]) + qa);
    assert(b =~= p.push(b[i]) + qb);
    lemma_be_num_concat(p.push(a[i]), qa);
    lemma_be_num_concat(p.push(b[i]), qb);
    assert(p.push(a[i]).drop_last() =~= p);
    assert(p.push(b[i]).drop_last() =~= p);
    lemma_be_num_bound(qb);
    let k = pow256(qa.len());
    let x = be_num(p);
    let ya = a[i] as nat;
    let yb = b[i] as nat;
    let ra = be_num(qa);
    let rb = be_num(qb);
    assert((x * 256 + ya) * k + ra > (x * 256 + yb) * k + rb) by (nonlinear_arith)
        requires
            ya > yb,
            rb < k,
            ra >= 0,
    ;
}

pub proof fn lemma_zpad_strip(s: Seq<u8>)
    ensures
        zpad_spec(strip_zeros(s), s.len()) == s,
        strip_zeros(s).len() <= s.len(),
        strip_zeros(s).len() > 0 ==> strip_zeros(s)[0] != 0,
    decreases s.len(),
{
    if s.len() > 0 && s[0] == 0 {
        let t = s.subrange(1, s.len() as int);
        lemma_zpad_strip(t);
        let st = strip_zeros(t);
        if st.len() < s.len() {
            assert(zeros((s.len() - st.len()) as nat) + st =~= seq![0u8] + (zeros(
                (t.len() - st.len()) as nat,
            ) + st));
            if st.len() < t.len() {
                assert(seq![0u8] + t =~= s);
            } else {
                assert(st == t);
                assert(zeros((t.len() - st.len()) as nat) + st =~= t);
                assert(seq![0u8] + t =~= s);
            }
        }
    }
}

pub proof fn lemma_be_num_zpad(b: Seq<u8>, len: nat)
    ensures
        be_num(zpad_spec(b, len)) == be_num(b),
{
    if b.len() < len {
        let z = zeros((len - b.len()) as nat);
        lemma_be_num_concat(z, b);
        lemma_be_num_zeros((len - b.len()) as nat);
    }
}

/// Pads `bytes` with zeros at the beginning up to `len` bytes; returns it
/// unchanged when it is at least that long.
pub fn zpad(bytes: &[u8], len: usize) -> (r: Vec<u8>)
    ensures
        r@ == zpad_spec(bytes@, len as nat),
{
    let mut out: Vec<u8> = Vec::new();
    if bytes.len() < len {
        let n = len - bytes.len();
        let mut i: usize = 0;
        while i < n
            invariant
                i <= n,
                out@ == zeros(i as nat),
            decreases n - i,
        {
            out.push(0u8);
            proof {
                assert(out@ =~= zeros((i + 1) as nat));
            }
            i = i + 1;
        }
    }
    let ghost start = out@;
    let mut j: usize = 0;
    while j < bytes.len()
        invariant
            j <= bytes.len(),
            out@ == start + bytes@.subrange(0, j as int),
        decreases bytes.len() - j,
    {
        out.push(bytes[j]);
        proof {
            assert(out@ =~= start + bytes@.subrange(0, j + 1));
        }
        j = j + 1;
    }
    proof {
        assert(bytes@.subrange(0, bytes.len() as int) =~= bytes@);
        if bytes.len() >= len {
            assert(start =~= Seq::<u8>::empty());
            assert(out@ =~= bytes@);
        }
    }
    out
}

impl U256 {
    pub fn zero() -> (r: U256)
        ensures
            r.wf(),
            r.value() == 0,
            r.be@ == zeros(32),
    {
        let e: Vec<u8> = Vec::new();
        let be = zpad(e.as_slice(), 32);
        proof {
            assert(be@ =~= zeros(32));
            lemma_be_num_zeros(32);
        }
        U256 { be }
    }

    pub fn from_u64(n: u64) -> (r: U256)
        ensures
            r.wf(),
            r.value() == n,
    {
        let b = be_min_bytes(n);
        proof {
            assert(pow256(8) == 0x1_0000_0000_0000_0000) by {
                reveal_with_fuel(pow256, 9);
            }
            lemma_be_min(n as nat, 8);
            lemma_be_num_zpad(b@, 32);
        }
        U256 { be: zpad(b.as_slice(), 32) }
    }

    /// The integer whose big-endian bytes are `bytes`, at most 32 of them.
    pub fn from_big_endian(bytes: &[u8]) -> (r: U256)
        requires
            bytes@.len() <= 32,
        ensures
            r.wf(),
            r.be@ == zpad_spec(bytes@, 32),
            r.value() == be_num(bytes@),
    {
        proof {
            lemma_be_num_zpad(bytes@, 32);
        }
        U256 { be: zpad(bytes, 32) }
    }

    pub fn copy(&self) -> (r: U256)
        ensures
            r.be@ == self.be@,
    {
        U256 { be: self.be.clone() }
    }

    pub fn to_big_endian(&self) -> (r: Vec<u8>)
        ensures
            r@ == self.be@,
    {
        self.be.clone()
    }

    pub fn is_zero(&self) -> (r: bool)
        requires
            self.wf(),
        ensures
            r == (self.value() == 0),
    {
        let mut i: usize = 0;
        while i < 32
            invariant
                self.wf(),
                i <= 32,
                forall|k: int| 0 <= k < i ==> self.be@[k] == 0,
            decreases 32 - i,
        {
            if self.be[i] != 0 {
                proof {
                    lemma_be_num_zero_iff(self.be@);
                }
                return false;
            }
            i = i + 1;
        }
        proof {
            lemma_be_num_zero_iff(self.be@);
        }
        true
    }

    /// Whether `self` is at least `other`.
    pub fn ge(&self, other: &U256) -> (r: bool)
        requires
            self.wf(),
            other.wf(),
        ensures
            r == (self.value() >= other.value()),
    {
        let mut i: usize = 0;
        while i < 32
            invariant
                self.wf(),
                other.wf(),
                i <= 32,
                self.be@.subrange(0, i as int) == other.be@.subrange(0, i as int),
            decreases 32 - i,
        {
            if self.be[i] > other.be[i] {
                proof {
                    lemma_be_num_lex(self.be@, other.be@, i as int);
                }
                return true;
            }
            if self.be[i] < other.be[i] {
                proof {
                    lemma_be_num_lex(other.be@, self.be@, i as int);
                }
                return false;
            }
            proof {
                assert(self.be@.subrange(0, i + 1) =~= self.be@.subrange(0, i as int).push(
                    self.be@[i as int],
                ));
                assert(other.be@.subrange(0, i + 1) =~= other.be@.subrange(0, i as int).push(
                    other.be@[i as int],
                ));
            }
            i = i + 1;
        }
        proof {
            assert(self.be@ =~= self.be@.subrange(0, 32));
            assert(other.be@ =~= other.be@.subrange(0, 32));
        }
        true
    }

    /// The big-endian bytes without leading zeros: empty for zero.
    pub fn minimal_bytes(&self) -> (r: Vec<u8>)
        requires
            self.wf(),
        ensures
            r@ == strip_zeros(self.be@),
    {
        let mut i: usize = 0;
        proof {
            assert(self.be@.subrange(0, 32) =~= self.be@);
        }
        while i < 32 && self.be[i] == 0
            invariant
                self.wf(),
                i <= 32,
                strip_zeros(self.be@) == strip_zeros(self.be@.subrange(i as int, 32)),
            decreases 32 - i,
        {
            proof {
                let t = self.be@.subrange(i as int, 32);
                assert(t.subrange(1, t.len() as int) =~= self.be@.subrange(i + 1, 32));
            }
            i = i + 1;
        }
        proof {
            let t = self.be@.subrange(i as int, 32);
            assert(strip_zeros(t) == t);
        }
        crate::codec::copy_range(self.be.as_slice(), i, 32)
    }

    /// The constant order of the secp256k1 group.
    pub fn secp256k1_order() -> (r: U256)
        ensures
            r.wf(),
            r.value() == secp256k1_n(),
    {
        let be: Vec<u8> = vec![
            0xff, 0xff, 0xff, 0xff, 0xff, 0xff, 0xff, 0xff, 0xff, 0xff, 0xff, 0xff, 0xff, 0xff,
            0xff, 0xfe, 0xba, 0xae, 0xdc, 0xe6, 0xaf, 0x48, 0xa0, 0x3b, 0xbf, 0xd2, 0x5e, 0x8c,
            0xd0, 0x36, 0x41, 0x41,
        ];
        proof {
            assert(be@ =~= secp256k1_n_bytes());
        }
        U256 { be }
    }
}

} // verus!
