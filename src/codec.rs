use vstd::prelude::*;

verus! {

broadcast use vstd::std_specs::vec::axiom_vec_index_decreases;

/// Mathematical model of a decoded field.
pub enum Item {
    Int(u64),
    Bytes(Seq<u8>),
    List(Seq<Item>),
}

/// A field of the length-prefixed list/string encoding.
pub enum RLPField {
    Data { data: Vec<u8> },
    List { list: Vec<RLPField> },
    Integer { value: u64 },
}

impl RLPField {
    pub open spec fn model(self) -> Item
        decreases self,
    {
        match self {
            RLPField::Data { data } => Item::Bytes(data@),
            RLPField::Integer { value } => Item::Int(value),
            RLPField::List { list } => Item::List(
                Seq::new(
                    list.len() as nat,
                    |i: int|
                        if 0 <= i < list.len() {
                            list[i].model()
                        } else {
                            Item::Int(0)
                        },
                ),
            ),
        }
    }
}

/// The models of a sequence of fields.
pub open spec fn models(s: Seq<RLPField>) -> Seq<Item> {
    Seq::new(s.len(), |i: int| s[i].model())
}

/// Big-endian value of a byte string.
pub open spec fn be_num(s: Seq<u8>) -> nat
    decreases s.len(),
{
    if s.len() == 0 {
        0
    } else {
        be_num(s.drop_last()) * 256 + s.last() as nat
    }
}

pub open spec fn pow256(n: nat) -> nat
    decreases n,
{
    if n == 0 {
        1
    } else {
        256 * pow256((n - 1) as nat)
    }
}

/// Where the payload of the item that starts `s` lies: its offset from the
/// tag and its length, when the whole payload is inside `s`. Only for tags
/// that carry a payload (0x81 and above).
pub open spec fn payload_bounds(s: Seq<u8>) -> Option<(nat, nat)> {
    let ch = s[0];
    let (short_base, long_base): (int, int) = if ch < 0xc0 {
        (0x80, 0xb7)
    } else {
        (0xc0, 0xf7)
    };
    if ch <= long_base {
        let len = ch - short_base;
        if 1 + len <= s.len() {
            Some((1nat, len as nat))
        } else {
            None
        }
    } else {
        let ll = ch - long_base;
        if 1 + ll <= s.len() {
            let len = be_num(s.subrange(1, 1 + ll));
            if 1 + ll + len <= s.len() {
                Some(((1 + ll) as nat, len))
            } else {
                None
            }
        } else {
            None
        }
    }
}

/// Decodes the item at the start of `s`: the item and the number of bytes
/// it takes.
pub open spec fn parse_item(s: Seq<u8>) -> Option<(Item, nat)>
    decreases s.len(), 0nat,
{
    if s.len() == 0 {
        None
    } else if s[0] <= 0x7f {
        Some((Item::Int(s[0] as u64), 1))
    } else if s[0] == 0x80 {
        Some((Item::Bytes(Seq::empty()), 1))
    } else {
        match payload_bounds(s) {
            None => None,
            Some((off, len)) => {
                let payload = s.subrange(off as int, (off + len) as int);
                if s[0] < 0xc0 {
                    Some((Item::Bytes(payload), off + len))
                } else {
                    match parse_items(payload) {
                        Some(items) => Some((Item::List(items), off + len)),
                        None => None,
                    }
                }
            },
        }
    }
}

/// Decodes the whole of `s` as a sequence of items.
pub open spec fn parse_items(s: Seq<u8>) -> Option<Seq<Item>>
    decreases s.len(), 1nat,
{
    if s.len() == 0 {
        Some(Seq::empty())
    } else {
        match parse_item(s) {
            None => None,
            Some((it, n)) => if 0 < n <= s.len() {
                match parse_items(s.subrange(n as int, s.len() as int)) {
                    Some(rest) => Some(seq![it] + rest),
                    None => None,
                }
            } else {
                None
            },
        }
    }
}

pub proof fn lemma_parse_item_len(s: Seq<u8>)
    ensures
        parse_item(s) matches Some((it, n)) ==> 1 <= n <= s.len(),
{
}

pub proof fn lemma_be_num_bound(s: Seq<u8>)
    ensures
        be_num(s) < pow256(s.len()),
    decreases s.len(),
{
    if s.len() > 0 {
        lemma_be_num_bound(s.drop_last());
        let x = be_num(s.drop_last());
        let p = pow256((s.len() - 1) as nat);
        let b = s.last() as nat;
        assert(x * 256 + b < 256 * p) by (nonlinear_arith)
            requires
                x < p,
                b < 256,
        ;
    }
}

/// Reads `n` bytes at `pos` as a big-endian number.
pub(crate) fn read_be(input: &[u8], pos: usize, n: usize) -> (r: u64)
    requires
        pos + n <= input.len(),
        n <= 8,
    ensures
        r == be_num(input@.subrange(pos as int, pos + n)),
{
    let mut acc: u64 = 0;
    let mut i: usize = pos;
    proof {
        assert(input@.subrange(pos as int, pos as int) =~= Seq::<u8>::empty());
    }
    while i < pos + n
        invariant
            pos <= i <= pos + n,
            pos + n <= input.len(),
            n <= 8,
            acc == be_num(input@.subrange(pos as int, i as int)),
        decreases pos + n - i,
    {
        let ghost prev = input@.subrange(pos as int, i as int);
        let ghost next = input@.subrange(pos as int, i + 1);
        proof {
            assert(next.drop_last() =~= prev);
            lemma_be_num_bound(prev);
            assert(pow256(prev.len()) <= pow256(7)) by {
                lemma_pow256_mono(prev.len(), 7);
            }
            assert(pow256(7) == 0x100000000000000) by {
                reveal_with_fuel(pow256, 8);
            }
        }
        acc = acc * 256 + input[i] as u64;
        i = i + 1;
    }
    acc
}

pub proof fn lemma_pow256_mono(a: nat, b: nat)
    requires
        a <= b,
    ensures
        pow256(a) <= pow256(b),
    decreases b,
{
    if a < b {
        lemma_pow256_mono(a, (b - 1) as nat);
    }
}

/// Computes `payload_bounds` for the item starting at `pos`.
fn payload_at(input: &[u8], pos: usize, end: usize) -> (r: Option<(usize, usize)>)
    requires
        pos < end <= input.len(),
        input[pos as int] > 0x80,
    ensures
        match r {
            Some((off, len)) => payload_bounds(input@.subrange(pos as int, end as int)) == Some(
                (off as nat, len as nat),
            ),
            None => payload_bounds(input@.subrange(pos as int, end as int)) is None,
        },
{
    let ghost s = input@.subrange(pos as int, end as int);
    let ch = input[pos];
    let avail: usize = end - pos;
    let (short_base, long_base): (u8, u8) = if ch < 0xc0 {
        (0x80, 0xb7)
    } else {
        (0xc0, 0xf7)
    };
    if ch <= long_base {
        let len = (ch - short_base) as usize;
        if 1 + len <= avail {
            Some((1, len))
        } else {
            None
        }
    } else {
        let ll = (ch - long_base) as usize;
        if 1 + ll <= avail {
            let len = read_be(input, pos + 1, ll);
            proof {
                assert(input@.subrange(pos + 1, pos + 1 + ll) =~= s.subrange(1, 1 + ll));
            }
            if len <= (avail - 1 - ll) as u64 {
                Some((1 + ll, len as usize))
            } else {
                None
            }
        } else {
            None
        }
    }
}

/// Copies `input[from..to]` into a new vector.
pub(crate) fn copy_range(input: &[u8], from: usize, to: usize) -> (r: Vec<u8>)
    requires
        from <= to <= input.len(),
    ensures
        r@ == input@.subrange(from as int, to as int),
{
    let mut out: Vec<u8> = Vec::new();
    let mut i: usize = from;
    while i < to
        invariant
            from <= i <= to <= input.len(),
            out@ == input@.subrange(from as int, i as int),
        decreases to - i,
    {
        out.push(input[i]);
        proof {
            assert(out@ =~= input@.subrange(from as int, i + 1));
        }
        i = i + 1;
    }
    out
}

fn unpack_at(input: &[u8], pos: usize, end: usize) -> (r: Option<(RLPField, usize)>)
    requires
        pos <= end <= input.len(),
    ensures
        match r {
            Some((f, n)) => parse_item(input@.subrange(pos as int, end as int)) == Some(
                (f.model(), n as nat),
            ),
            None => parse_item(input@.subrange(pos as int, end as int)) is None,
        },
    decreases end - pos, 0nat,
{
    let ghost s = input@.subrange(pos as int, end as int);
    if pos >= end {
        return None;
    }
    let ch = input[pos];
    if ch <= 0x7f {
        return Some((RLPField::Integer { value: ch as u64 }, 1));
    }
    if ch == 0x80 {
        let data: Vec<u8> = Vec::new();
        proof {
            assert(data@ =~= Seq::<u8>::empty());
        }
        return Some((RLPField::Data { data }, 1));
    }
    match payload_at(input, pos, end) {
        None => None,
        Some((off, len)) => {
            proof {
                assert(input@.subrange(pos + off, pos + off + len) =~= s.subrange(
                    off as int,
                    off + len,
                ));
            }
            if ch < 0xc0 {
                let data = copy_range(input, pos + off, pos + off + len);
                Some((RLPField::Data { data }, off + len))
            } else {
                match unpack_list(input, pos + off, pos + off + len) {
                    Some(list) => {
                        let ghost lv = list@;
                        let f = RLPField::List { list };
                        proof {
                            assert(f.model() is List);
                            assert(f.model()->List_0 =~= models(lv));
                        }
                        Some((f, off + len))
                    },
                    None => None,
                }
            }
        },
    }
}

fn unpack_list(input: &[u8], pos: usize, end: usize) -> (r: Option<Vec<RLPField>>)
    requires
        pos <= end <= input.len(),
    ensures
        match r {
            Some(v) => parse_items(input@.subrange(pos as int, end as int)) == Some(models(v@)),
            None => parse_items(input@.subrange(pos as int, end as int)) is None,
        },
    decreases end - pos, 1nat,
{
    let ghost s = input@.subrange(pos as int, end as int);
    if pos == end {
        let v: Vec<RLPField> = Vec::new();
        proof {
            assert(models(v@) =~= Seq::<Item>::empty());
        }
        return Some(v);
    }
    match unpack_at(input, pos, end) {
        None => None,
        Some((f, n)) => {
            proof {
                lemma_parse_item_len(s);
                assert(input@.subrange(pos + n, end as int) =~= s.subrange(n as int, s.len() as int));
            }
            match unpack_list(input, pos + n, end) {
                None => None,
                Some(rest) => {
                    let ghost old_rest = rest@;
                    let mut rest = rest;
                    rest.insert(0, f);
                    proof {
                        assert(models(rest@) =~= seq![f.model()] + models(old_rest));
                    }
                    Some(rest)
                },
            }
        },
    }
}

impl RLPField {
    /// Decodes the field at the start of `input`; returns it with the
    /// number of bytes it takes, or `None` when `input` does not start with
    /// a complete, well-formed field.
    pub fn unpack(input: &[u8]) -> (r: Option<(RLPField, usize)>)
        ensures
            match r {
                Some((f, n)) => parse_item(input@) == Some((f.model(), n as nat)),
                None => parse_item(input@) is None,
            },
    {
        proof {
            assert(input@.subrange(0, input@.len() as int) =~= input@);
        }
        unpack_at(input, 0, input.len())
    }
}


/// Minimal big-endian bytes of `n`: empty for zero.
pub open spec fn be_min(n: nat) -> Seq<u8>
    decreases n,
{
    if n == 0 {
        Seq::empty()
    } else {
        be_min(n / 256).push((n % 256) as u8)
    }
}

/// The tag, and the length bytes where they are needed, in front of a
/// payload of `len` bytes. `short_base` is 0x80 for strings, 0xc0 for lists.
pub open spec fn length_prefix(len: nat, short_base: u8) -> Seq<u8> {
    if len <= 55 {
        seq![(short_base + len) as u8]
    } else {
        seq![(short_base + 55 + be_min(len).len()) as u8] + be_min(len)
    }
}

pub open spec fn encode_item(it: Item) -> Seq<u8>
    decreases it,
{
    match it {
        Item::Int(v) => seq![v as u8],
        Item::Bytes(b) => length_prefix(b.len(), 0x80) + b,
        Item::List(items) => length_prefix(encode_items(items).len(), 0xc0) + encode_items(items),
    }
}

pub open spec fn encode_items(items: Seq<Item>) -> Seq<u8>
    decreases items,
{
    if items.len() == 0 {
        Seq::empty()
    } else {
        encode_item(items[0]) + encode_items(items.subrange(1, items.len() as int))
    }
}

pub open spec fn fits_length(n: nat) -> bool {
    n < 0x1_0000_0000_0000_0000
}

/// The items that the encoding can carry: an inline integer is below 0x80,
/// and every length fits in 64 bits.
pub open spec fn wf_item(it: Item) -> bool
    decreases it,
{
    match it {
        Item::Int(v) => v <= 0x7f,
        Item::Bytes(b) => fits_length(b.len()),
        Item::List(items) => wf_items(items) && fits_length(encode_items(items).len()),
    }
}

pub open spec fn wf_items(items: Seq<Item>) -> bool
    decreases items,
{
    items.len() == 0 || (wf_item(items[0]) && wf_items(items.subrange(1, items.len() as int)))
}

pub proof fn lemma_be_min(n: nat, k: nat)
    requires
        n < pow256(k),
    ensures
        be_num(be_min(n)) == n,
        be_min(n).len() <= k,
        n > 0 ==> be_min(n).len() >= 1,
    decreases n,
{
    if n > 0 {
        assert(k > 0);
        assert(n / 256 < pow256((k - 1) as nat)) by (nonlinear_arith)
            requires
                n < pow256(k),
                pow256(k) == 256 * pow256((k - 1) as nat),
        ;
        lemma_be_min(n / 256, (k - 1) as nat);
        assert(be_min(n).drop_last() =~= be_min(n / 256));
    }
}

proof fn lemma_prefix(len: nat, short_base: u8, tail: Seq<u8>)
    requires
        short_base == 0x80 || short_base == 0xc0,
        len <= tail.len(),
        fits_length(len),
        len > 0 || short_base == 0xc0,
    ensures
        ({
            let s = length_prefix(len, short_base) + tail;
            &&& s[0] == length_prefix(len, short_base)[0]
            &&& s[0] > 0x80
            &&& (s[0] < 0xc0 <==> short_base == 0x80)
            &&& payload_bounds(s) == Some((length_prefix(len, short_base).len(), len))
        }),
{
    let s = length_prefix(len, short_base) + tail;
    if len > 55 {
        assert(pow256(8) == 0x1_0000_0000_0000_0000) by {
            reveal_with_fuel(pow256, 9);
        }
        lemma_be_min(len, 8);
        let b = be_min(len);
        assert(s.subrange(1, 1 + b.len() as int) =~= b);
    }
}

proof fn lemma_subrange_concat(a: Seq<u8>, b: Seq<u8>)
    ensures
        (a + b).subrange(a.len() as int, (a + b).len() as int) =~= b,
        (a + b).subrange(0, a.len() as int) =~= a,
{
}

/// Decoding the encoding of an item gives the item back, and stops where the
/// encoding ends.
pub proof fn lemma_round_trip(it: Item, rest: Seq<u8>)
    requires
        wf_item(it),
    ensures
        parse_item(encode_item(it) + rest) == Some((it, encode_item(it).len())),
    decreases it, 1nat,
{
    let e = encode_item(it);
    let s = e + rest;
    match it {
        Item::Int(v) => {},
        Item::Bytes(b) => {
            let p = length_prefix(b.len(), 0x80);
            if b.len() == 0 {
                assert(s[0] == 0x80);
                assert(b =~= Seq::<u8>::empty());
            } else {
                lemma_prefix(b.len(), 0x80, b + rest);
                assert(s =~= p + (b + rest));
                assert(s.subrange(p.len() as int, (p.len() + b.len()) as int) =~= b);
            }
        },
        Item::List(items) => {
            let pl = encode_items(items);
            let p = length_prefix(pl.len(), 0xc0);
            lemma_prefix(pl.len(), 0xc0, pl + rest);
            assert(s =~= p + (pl + rest));
            assert(s.subrange(p.len() as int, (p.len() + pl.len()) as int) =~= pl);
            lemma_round_trip_items(items);
        },
    }
}

pub proof fn lemma_round_trip_items(items: Seq<Item>)
    requires
        wf_items(items),
    ensures
        parse_items(encode_items(items)) == Some(items),
    decreases items, 0nat,
{
    if items.len() == 0 {
        assert(encode_items(items).len() == 0);
    } else {
        let tail = items.subrange(1, items.len() as int);
        let e0 = encode_item(items[0]);
        let et = encode_items(tail);
        assert(decreases_to!(items => items[0]));
        lemma_round_trip(items[0], et);
        lemma_parse_item_len(e0 + et);
        lemma_subrange_concat(e0, et);
        assert(decreases_to!(items => tail));
        lemma_round_trip_items(tail);
        assert(seq![items[0]] + tail =~= items);
    }
}

proof fn lemma_encode_items_push(s: Seq<Item>, x: Item)
    ensures
        encode_items(s.push(x)) == encode_items(s) + encode_item(x),
    decreases s.len(),
{
    let t = s.push(x);
    if s.len() == 0 {
        assert(t.subrange(1, t.len() as int) =~= Seq::<Item>::empty());
        assert(t[0] == x);
        assert(encode_items(t.subrange(1, t.len() as int)) =~= Seq::<u8>::empty());
        assert(encode_items(t) =~= encode_item(x));
    } else {
        let st = s.subrange(1, s.len() as int);
        assert(t.subrange(1, t.len() as int) =~= st.push(x));
        lemma_encode_items_push(st, x);
        assert(encode_items(t) =~= encode_items(s) + encode_item(x));
    }
}

proof fn lemma_wf_items_index(s: Seq<Item>, i: int)
    requires
        wf_items(s),
        0 <= i < s.len(),
    ensures
        wf_item(s[i]),
    decreases s.len(),
{
    if i > 0 {
        lemma_wf_items_index(s.subrange(1, s.len() as int), i - 1);
    }
}

pub(crate) fn be_min_bytes(n: u64) -> (r: Vec<u8>)
    ensures
        r@ == be_min(n as nat),
    decreases n,
{
    if n == 0 {
        let v: Vec<u8> = Vec::new();
        proof {
            assert(v@ =~= be_min(0));
        }
        v
    } else {
        let mut v = be_min_bytes(n / 256);
        v.push((n % 256) as u8);
        v
    }
}

fn push_prefix(out: &mut Vec<u8>, len: usize, short_base: u8)
    requires
        short_base == 0x80 || short_base == 0xc0,
    ensures
        final(out)@ == old(out)@ + length_prefix(len as nat, short_base),
{
    if len <= 55 {
        out.push(short_base + len as u8);
        proof {
            assert(final(out)@ =~= old(out)@ + length_prefix(len as nat, short_base));
        }
    } else {
        let b = be_min_bytes(len as u64);
        proof {
            assert(pow256(8) == 0x1_0000_0000_0000_0000) by {
                reveal_with_fuel(pow256, 9);
            }
            lemma_be_min(len as nat, 8);
        }
        out.push(short_base + 55 + b.len() as u8);
        let mut i: usize = 0;
        let ghost start = out@;
        while i < b.len()
            invariant
                i <= b.len(),
                out@ == start + b@.subrange(0, i as int),
            decreases b.len() - i,
        {
            out.push(b[i]);
            proof {
                assert(out@ =~= start + b@.subrange(0, i + 1));
            }
            i = i + 1;
        }
        proof {
            assert(b@.subrange(0, b.len() as int) =~= b@);
            assert(final(out)@ =~= old(out)@ + length_prefix(len as nat, short_base));
        }
    }
}

pub(crate) fn append_bytes(out: &mut Vec<u8>, b: &Vec<u8>)
    ensures
        final(out)@ == old(out)@ + b@,
{
    let mut i: usize = 0;
    let ghost start = out@;
    while i < b.len()
        invariant
            i <= b.len(),
            out@ == start + b@.subrange(0, i as int),
        decreases b.len() - i,
    {
        out.push(b[i]);
        proof {
            assert(out@ =~= start + b@.subrange(0, i + 1));
        }
        i = i + 1;
    }
    proof {
        assert(b@.subrange(0, b.len() as int) =~= b@);
    }
}

impl RLPField {
    /// Encodes the field: an inline integer as its byte, a byte string or a
    /// list behind the tag and length that fit its size.
    pub fn pack(&self) -> (r: Vec<u8>)
        requires
            wf_item(self.model()),
        ensures
            r@ == encode_item(self.model()),
        decreases self,
    {
        match self {
            RLPField::Integer { value } => {
                let mut out: Vec<u8> = Vec::new();
                out.push(*value as u8);
                proof {
                    assert(out@ =~= encode_item(self.model()));
                }
                out
            },
            RLPField::Data { data } => {
                let mut out: Vec<u8> = Vec::new();
                push_prefix(&mut out, data.len(), 0x80);
                append_bytes(&mut out, data);
                proof {
                    assert(out@ =~= encode_item(self.model()));
                }
                out
            },
            RLPField::List { list } => {
                let ghost ms = models(list@);
                proof {
                    assert(self.model()->List_0 =~= ms);
                }
                let mut payload: Vec<u8> = Vec::new();
                let mut i: usize = 0;
                while i < list.len()
                    invariant
                        i <= list.len(),
                        ms == models(list@),
                        *self == (RLPField::List { list: *list }),
                        wf_items(ms),
                        payload@ == encode_items(ms.subrange(0, i as int)),
                    decreases list.len() - i,
                {
                    proof {
                        lemma_wf_items_index(ms, i as int);
                        assert(decreases_to!(*list => list[i as int]));
                        assert(decreases_to!(*self => self->list));
                        assert(decreases_to!(*self => list[i as int]));
                    }
                    let e = list[i].pack();
                    append_bytes(&mut payload, &e);
                    proof {
                        lemma_encode_items_push(ms.subrange(0, i as int), ms[i as int]);
                        assert(ms.subrange(0, i + 1) =~= ms.subrange(0, i as int).push(
                            ms[i as int],
                        ));
                    }
                    i = i + 1;
                }
                proof {
                    assert(ms.subrange(0, list.len() as int) =~= ms);
                }
                let mut out: Vec<u8> = Vec::new();
                push_prefix(&mut out, payload.len(), 0xc0);
                append_bytes(&mut out, &payload);
                proof {
                    assert(out@ =~= encode_item(self.model()));
                }
                out
            },
        }
    }
}

} // verus!
