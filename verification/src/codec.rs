use vstd::prelude::*;
use vstd::arithmetic::div_mod::{
    lemma_fundamental_div_mod, lemma_fundamental_div_mod_converse_mod,
    lemma_mod_division_less_than_divisor,
};
use crate::gossip::GossipMessage;

verus! {

/// 256 to the `k`: the place value of byte `k` of a little-endian
/// byte string.
pub open spec fn pow256(k: nat) -> nat
    decreases k,
{
    if k == 0 {
        1nat
    } else {
        256 * pow256((k - 1) as nat)
    }
}

/// The number a little-endian byte string denotes.
pub open spec fn le_value(b: Seq<u8>) -> nat
    decreases b.len(),
{
    if b.len() == 0 {
        0nat
    } else {
        b.first() as nat + 256 * le_value(b.drop_first())
    }
}

/// The payload value a 16-byte little-endian string denotes, read back
/// into the signed accumulator type.
pub open spec fn i128_of_le(b: Seq<u8>) -> i128 {
    (le_value(b) as u128) as i128
}

proof fn lemma_pow256_pos(k: nat)
    ensures
        pow256(k) >= 1,
    decreases k,
{
    if k > 0 {
        lemma_pow256_pos((k - 1) as nat);
    }
}

proof fn lemma_pow256_monotone(a: nat, b: nat)
    requires
        a <= b,
    ensures
        pow256(a) <= pow256(b),
    decreases b,
{
    if a < b {
        lemma_pow256_monotone(a, (b - 1) as nat);
        lemma_pow256_pos((b - 1) as nat);
    }
}

proof fn lemma_pow256_16()
    ensures
        pow256(16) == 0x1_00000000_00000000_00000000_00000000,
{
    assert(pow256(16) == 0x1_00000000_00000000_00000000_00000000) by {
        reveal_with_fuel(pow256, 17);
    }
}

/// Appending a byte puts it at the highest place of the denoted value.
proof fn lemma_le_value_push(s: Seq<u8>, v: u8)
    ensures
        le_value(s.push(v)) == le_value(s) + v as nat * pow256(s.len()),
    decreases s.len(),
{
    if s.len() == 0 {
        assert(s.push(v).drop_first() =~= Seq::<u8>::empty());
        assert(s.push(v).first() == v);
        assert(le_value(s.push(v)) == v as nat + 256 * le_value(Seq::<u8>::empty()));
        assert(le_value(Seq::<u8>::empty()) == 0);
        assert(le_value(s) == 0);
        assert(pow256(s.len()) == 1);
        assert((v as nat) * pow256(s.len()) == v as nat) by (nonlinear_arith)
            requires
                pow256(s.len()) == 1,
        {}
        assert(le_value(s.push(v)) == le_value(s) + v as nat * pow256(s.len()));
    } else {
        assert(s.push(v).first() == s.first());
        assert(s.push(v).drop_first() =~= s.drop_first().push(v));
        lemma_le_value_push(s.drop_first(), v);
        let a = s.first() as int;
        let dv = le_value(s.drop_first()) as int;
        let vi = v as int;
        let p = pow256((s.len() - 1) as nat) as int;
        assert(le_value(s.drop_first().push(v)) == dv + vi * p);
        assert(le_value(s.push(v)) == a + 256 * (dv + vi * p));
        assert(le_value(s) == a + 256 * dv);
        assert(pow256(s.len()) == 256 * p);
        assert(a + 256 * (dv + vi * p) == (a + 256 * dv) + vi * (256 * p)) by (nonlinear_arith);
        assert(le_value(s.push(v)) == le_value(s) + v as nat * pow256(s.len()));
    }
}

/// A byte string of length `m` denotes a value below 256 to the `m`.
proof fn lemma_le_value_bound(b: Seq<u8>)
    ensures
        le_value(b) < pow256(b.len()),
    decreases b.len(),
{
    if b.len() > 0 {
        lemma_le_value_bound(b.drop_first());
        assert(pow256(b.len()) == 256 * pow256((b.len() - 1) as nat));
    }
}

/// Equal values have equal byte strings: the encoding is canonical, so
/// a value on the wire decodes one way only.
pub proof fn lemma_le_value_injective(a: Seq<u8>, b: Seq<u8>)
    requires
        a.len() == b.len(),
        le_value(a) == le_value(b),
    ensures
        a == b,
    decreases a.len(),
{
    if a.len() > 0 {
        let v = le_value(a) as int;
        lemma_fundamental_div_mod_converse_mod(v, 256, le_value(a.drop_first()) as int, a.first() as int);
        lemma_fundamental_div_mod_converse_mod(v, 256, le_value(b.drop_first()) as int, b.first() as int);
        assert(a.first() == b.first());
        assert(le_value(a.drop_first()) == le_value(b.drop_first()));
        lemma_le_value_injective(a.drop_first(), b.drop_first());
        assert forall|i: int| 0 <= i < a.len() implies a[i] == b[i] by {
            if i > 0 {
                assert(a[i] == a.drop_first()[i - 1]);
                assert(b[i] == b.drop_first()[i - 1]);
            }
        }
        assert(a =~= b);
    } else {
        assert(a =~= b);
    }
}

/// The shared little-endian encoder: the `len` bytes denoting `x`.
fn le_bytes(x: u128, len: usize) -> (r: Vec<u8>)
    requires
        len <= 16,
        (x as nat) < pow256(len as nat),
    ensures
        r@.len() == len,
        le_value(r@) == x as nat,
{
    let mut out: Vec<u8> = Vec::new();
    let mut cur: u128 = x;
    let mut k: usize = 0;
    proof {
        assert(le_value(out@) == 0);
        assert(pow256(0nat) == 1);
    }
    while k < len
        invariant
            k <= len,
            out@.len() == k,
            le_value(out@) + pow256(k as nat) * (cur as nat) == x as nat,
            (cur as nat) < pow256((len - k) as nat),
        decreases len - k,
    {
        let b: u8 = (cur % 256) as u8;
        let ghost prev_out = out@;
        let ghost c = cur as int;
        out.push(b);
        cur = cur / 256;
        proof {
            let p = pow256(k as nat) as int;
            let q = cur as int;
            let m = b as int;
            lemma_fundamental_div_mod(c, 256);
            lemma_mod_division_less_than_divisor(c, 256);
            lemma_le_value_push(prev_out, b);
            assert(pow256((k + 1) as nat) == 256 * pow256(k as nat));
            assert(m * p + (256 * p) * q == p * c) by (nonlinear_arith)
                requires
                    c == 256 * q + m,
            {}
            assert(le_value(out@) + pow256((k + 1) as nat) * (cur as nat) == x as nat);
            assert(pow256(((len - k) - 1) as nat) * 256 == pow256((len - k) as nat));
            assert(q < pow256(((len - k) - 1) as nat)) by (nonlinear_arith)
                requires
                    c == 256 * q + m,
                    0 <= m < 256,
                    0 <= q,
                    c < pow256(((len - k) - 1) as nat) * 256,
            {}
        }
        k = k + 1;
    }
    proof {
        assert(pow256(0nat) == 1);
        assert(cur == 0);
    }
    out
}

/// The shared little-endian decoder: the value that bytes
/// `lo .. hi` of `b` denote.
fn le_decode(b: &Vec<u8>, lo: usize, hi: usize) -> (r: u128)
    requires
        lo <= hi <= b@.len(),
        hi - lo <= 16,
    ensures
        r as nat == le_value(b@.subrange(lo as int, hi as int)),
{
    let mut acc: u128 = 0;
    let mut k: usize = hi;
    while k > lo
        invariant
            lo <= k <= hi <= b@.len(),
            hi - lo <= 16,
            acc as nat == le_value(b@.subrange(k as int, hi as int)),
            (acc as nat) < pow256((hi - k) as nat),
        decreases k,
    {
        proof {
            let tail = b@.subrange(k as int, hi as int);
            let full = b@.subrange(k - 1, hi as int);
            assert(full.first() == b@[k - 1]);
            assert(full.drop_first() =~= tail);
            lemma_pow256_monotone(((hi - k) + 1) as nat, 16nat);
            lemma_pow256_16();
            assert(pow256(((hi - k) + 1) as nat) == 256 * pow256((hi - k) as nat));
        }
        acc = acc * 256 + (b[k - 1] as u128);
        k = k - 1;
    }
    proof {
        assert(b@.subrange(lo as int, hi as int) == b@.subrange(k as int, hi as int));
    }
    acc
}

/// Encoder for a member identifier: four little-endian bytes.
pub fn encode_u32(x: u32) -> (r: Vec<u8>)
    ensures
        r@.len() == 4,
        le_value(r@) == x as nat,
{
    proof {
        assert(pow256(4) == 0x1_00000000) by {
            reveal_with_fuel(pow256, 5);
        }
    }
    le_bytes(x as u128, 4)
}

/// Decoder for a member identifier; rejects any string that is not
/// exactly four bytes.
pub fn decode_u32(b: &Vec<u8>) -> (r: Option<u32>)
    ensures
        r is Some <==> b@.len() == 4,
        b@.len() == 4 ==> r == Some((le_value(b@) as u32)),
{
    if b.len() != 4 {
        return None;
    }
    proof {
        assert(pow256(4) == 0x1_00000000) by {
            reveal_with_fuel(pow256, 5);
        }
        lemma_le_value_bound(b@);
        assert(b@.subrange(0, 4) =~= b@);
    }
    let v = le_decode(b, 0, 4);
    Some(v as u32)
}

/// Encoder for a payload value: sixteen little-endian bytes of its
/// two's-complement image.
pub fn encode_i128(x: i128) -> (r: Vec<u8>)
    ensures
        r@.len() == 16,
        le_value(r@) == (x as u128) as nat,
{
    proof {
        lemma_pow256_16();
    }
    le_bytes(x as u128, 16)
}

/// Decoder for a payload value; rejects any string that is not exactly
/// sixteen bytes.
pub fn decode_i128(b: &Vec<u8>) -> (r: Option<i128>)
    ensures
        r is Some <==> b@.len() == 16,
        b@.len() == 16 ==> r == Some(i128_of_le(b@)),
{
    if b.len() != 16 {
        return None;
    }
    proof {
        lemma_pow256_16();
        lemma_le_value_bound(b@);
        assert(b@.subrange(0, 16) =~= b@);
    }
    let v = le_decode(b, 0, 16);
    Some(v as i128)
}

/// Round trip of the payload codec: any byte string that encodes `x`
/// decodes to exactly `x` — nothing on the wire is lost.
pub proof fn lemma_i128_round_trip(x: i128, b: Seq<u8>)
    requires
        b.len() == 16,
        le_value(b) == (x as u128) as nat,
    ensures
        i128_of_le(b) == x,
{
    assert(((x as u128) as i128) == x) by (bit_vector);
}

/// Round trip of the identifier codec.
pub proof fn lemma_u32_round_trip(x: u32, b: Seq<u8>)
    requires
        b.len() == 4,
        le_value(b) == x as nat,
    ensures
        le_value(b) as u32 == x,
{
}

/// Encoder for the gossip envelope over payload values: a tag byte —
/// zero for Real, one for Gossip — then the sixteen payload bytes.
pub fn encode_gossip(m: &GossipMessage<i128>) -> (r: Vec<u8>)
    ensures
        r@.len() == 17,
        m matches GossipMessage::Real(x) ==> r@[0] == 0 && le_value(r@.subrange(1, 17)) == (
        x as u128) as nat,
        m matches GossipMessage::Gossip(x) ==> r@[0] == 1 && le_value(r@.subrange(1, 17)) == (
        x as u128) as nat,
{
    let mut out: Vec<u8> = Vec::new();
    let payload: i128 = match m {
        GossipMessage::Real(x) => {
            out.push(0);
            *x
        },
        GossipMessage::Gossip(x) => {
            out.push(1);
            *x
        },
    };
    let mut body = encode_i128(payload);
    let ghost tagged = out@;
    let ghost body_view = body@;
    out.append(&mut body);
    proof {
        assert(out@.subrange(1, 17) =~= body_view);
    }
    out
}

/// Decoder for the gossip envelope; rejects any string that is not
/// seventeen bytes or whose tag names no variant.
pub fn decode_gossip(b: &Vec<u8>) -> (r: Option<GossipMessage<i128>>)
    ensures
        r is Some <==> (b@.len() == 17 && (b@[0] == 0 || b@[0] == 1)),
        b@.len() == 17 && b@[0] == 0 ==> r == Some(
            GossipMessage::Real(i128_of_le(b@.subrange(1, 17))),
        ),
        b@.len() == 17 && b@[0] == 1 ==> r == Some(
            GossipMessage::Gossip(i128_of_le(b@.subrange(1, 17))),
        ),
{
    if b.len() != 17 {
        return None;
    }
    let tag = b[0];
    if tag > 1 {
        return None;
    }
    proof {
        lemma_pow256_16();
        lemma_le_value_bound(b@.subrange(1, 17));
    }
    let v = le_decode(b, 1, 17);
    if tag == 0 {
        Some(GossipMessage::Real(v as i128))
    } else {
        Some(GossipMessage::Gossip(v as i128))
    }
}

} // verus!
