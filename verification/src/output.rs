use vstd::prelude::*;
use crate::bytes::{append_bytes, copy_bytes};

verus! {

/// Largest byte-string field the encoder accepts; keeps every offset and
/// length word of the fixed schema well inside 32 bits.
pub const MAX_FIELD_LEN: usize = 0x1000_0000;

/// Public output of the polynomial claim: `(uint32 x, uint32 a, uint32 y)`.
#[derive(Clone, Copy, Debug, PartialEq, Eq, Structural)]
pub struct PolyOutput {
    pub x: u32,
    pub a: u32,
    pub y: u32,
}

/// Public output of an identity claim: `(bytes address, bytes aux_key)`.
#[derive(Clone, Debug, PartialEq, Eq)]
pub struct IdentityOutput {
    pub address: Vec<u8>,
    pub aux_key: Vec<u8>,
}

/// A sequence of `n` zero bytes.
pub open spec fn zeros(n: nat) -> Seq<u8> {
    Seq::new(n, |i: int| 0u8)
}

/// The four bytes of `v`, most significant first.
pub open spec fn be4(v: u32) -> Seq<u8> {
    seq![(v >> 24u32) as u8, (v >> 16u32) as u8, (v >> 8u32) as u8, v as u8]
}

/// A 32-byte word holding `v` right-aligned, as the external schema writes
/// unsigned integers.
pub open spec fn abi_word(v: u32) -> Seq<u8> {
    zeros(28) + be4(v)
}

/// Zero bytes needed to pad `n` content bytes to a 32-byte border.
pub open spec fn pad_amount(n: nat) -> nat {
    if n % 32 == 0 {
        0
    } else {
        (32 - n % 32) as nat
    }
}

/// The tail of a dynamic byte string: its length word, its content, and zero
/// padding up to the next word border.
pub open spec fn abi_bytes_tail(b: Seq<u8>) -> Seq<u8> {
    abi_word(b.len() as u32) + b + zeros(pad_amount(b.len()))
}

/// The encoding of the polynomial output: three words, in field order.
pub open spec fn abi_poly(x: u32, a: u32, y: u32) -> Seq<u8> {
    abi_word(x) + abi_word(a) + abi_word(y)
}

/// The encoding of an identity output: the offset of the pair, the offsets of
/// its two byte strings, then the two tails, in field order.
pub open spec fn abi_identity(addr: Seq<u8>, aux: Seq<u8>) -> Seq<u8> {
    abi_word(32) + abi_word(64) + abi_word((96 + addr.len() + pad_amount(addr.len())) as u32)
        + abi_bytes_tail(addr) + abi_bytes_tail(aux)
}

/// Whether the 28 high bytes of the word at `pos` are zero.
pub open spec fn is_word_at(data: Seq<u8>, pos: int) -> bool {
    forall|j: int| pos <= j < pos + 28 ==> data[j] == 0
}

/// The value of the word at `pos`, read from its four low bytes.
pub open spec fn word_val(data: Seq<u8>, pos: int) -> u32 {
    ((data[pos + 28] as u32) << 24u32) | ((data[pos + 29] as u32) << 16u32) | ((data[pos + 30]
        as u32) << 8u32) | (data[pos + 31] as u32)
}

/// Structural well-formedness of an encoded identity output, stated directly
/// on the bytes: every condition the decoder checks.
pub open spec fn identity_wf(data: Seq<u8>) -> bool {
    let n = data.len() as int;
    let la = word_val(data, 96) as int;
    let pa = pad_amount(la as nat) as int;
    let posb = 128 + la + pa;
    let lb = word_val(data, posb) as int;
    let pb = pad_amount(lb as nat) as int;
    &&& n >= 160
    &&& is_word_at(data, 0)
    &&& word_val(data, 0) == 32
    &&& is_word_at(data, 32)
    &&& word_val(data, 32) == 64
    &&& is_word_at(data, 64)
    &&& is_word_at(data, 96)
    &&& la <= MAX_FIELD_LEN as int
    &&& word_val(data, 64) as int == 96 + la + pa
    &&& n >= 160 + la + pa
    &&& (forall|j: int| 128 + la <= j < posb ==> data[j] == 0)
    &&& is_word_at(data, posb)
    &&& lb <= MAX_FIELD_LEN as int
    &&& n == posb + 32 + lb + pb
    &&& (forall|j: int| posb + 32 + lb <= j < n ==> data[j] == 0)
}

/// A word's four low bytes recompose to its value.
proof fn lemma_u32_from_be_bytes(v: u32)
    by (bit_vector)
    ensures
        v == ((((v >> 24u32) as u8) as u32) << 24u32) | ((((v >> 16u32) as u8) as u32) << 16u32)
            | ((((v >> 8u32) as u8) as u32) << 8u32) | (((v as u8) as u32)),
{
}

/// Four bytes survive being packed into a word and unpacked again.
proof fn lemma_be4_roundtrip(b0: u8, b1: u8, b2: u8, b3: u8)
    by (bit_vector)
    ensures
        ({
            let v = (((b0 as u32) << 24u32) | ((b1 as u32) << 16u32) | ((b2 as u32) << 8u32) | (
            b3 as u32));
            (v >> 24u32) as u8 == b0 && (v >> 16u32) as u8 == b1 && (v >> 8u32) as u8 == b2 && v
                as u8 == b3
        }),
{
}

/// Equal words hold equal values.
proof fn lemma_abi_word_injective(u: u32, v: u32)
    requires
        abi_word(u) == abi_word(v),
    ensures
        u == v,
{
    assert(abi_word(u)[28] == (u >> 24u32) as u8);
    assert(abi_word(u)[29] == (u >> 16u32) as u8);
    assert(abi_word(u)[30] == (u >> 8u32) as u8);
    assert(abi_word(u)[31] == u as u8);
    assert(abi_word(v)[28] == (v >> 24u32) as u8);
    assert(abi_word(v)[29] == (v >> 16u32) as u8);
    assert(abi_word(v)[30] == (v >> 8u32) as u8);
    assert(abi_word(v)[31] == v as u8);
    lemma_u32_from_be_bytes(u);
    lemma_u32_from_be_bytes(v);
}

/// Bytes that spell out `abi_word(v)` read back as the word value `v`.
proof fn lemma_word_at_abi(data: Seq<u8>, pos: int, v: u32)
    requires
        0 <= pos,
        pos + 32 <= data.len(),
        data.subrange(pos, pos + 32) == abi_word(v),
    ensures
        is_word_at(data, pos),
        word_val(data, pos) == v,
{
    assert forall|j: int| pos <= j < pos + 28 implies data[j] == 0 by {
        assert(data[j] == data.subrange(pos, pos + 32)[j - pos]);
    }
    assert(data[pos + 28] == abi_word(v)[28]) by {
        assert(data[pos + 28] == data.subrange(pos, pos + 32)[28]);
    }
    assert(data[pos + 29] == abi_word(v)[29]) by {
        assert(data[pos + 29] == data.subrange(pos, pos + 32)[29]);
    }
    assert(data[pos + 30] == abi_word(v)[30]) by {
        assert(data[pos + 30] == data.subrange(pos, pos + 32)[30]);
    }
    assert(data[pos + 31] == abi_word(v)[31]) by {
        assert(data[pos + 31] == data.subrange(pos, pos + 32)[31]);
    }
    lemma_u32_from_be_bytes(v);
}

/// A well-formed word region equals `abi_word` of its value.
proof fn lemma_abi_word_from_val(data: Seq<u8>, pos: int)
    requires
        0 <= pos,
        pos + 32 <= data.len(),
        is_word_at(data, pos),
    ensures
        data.subrange(pos, pos + 32) == abi_word(word_val(data, pos)),
{
    lemma_be4_roundtrip(data[pos + 28], data[pos + 29], data[pos + 30], data[pos + 31]);
    assert(data.subrange(pos, pos + 32) =~= abi_word(word_val(data, pos)));
}

/// Lengths and word-aligned pieces of the polynomial encoding.
proof fn lemma_abi_poly_parts(x: u32, a: u32, y: u32)
    ensures
        abi_poly(x, a, y).len() == 96,
        abi_poly(x, a, y).subrange(0, 32) == abi_word(x),
        abi_poly(x, a, y).subrange(32, 64) == abi_word(a),
        abi_poly(x, a, y).subrange(64, 96) == abi_word(y),
{
    assert(abi_poly(x, a, y).subrange(0, 32) =~= abi_word(x));
    assert(abi_poly(x, a, y).subrange(32, 64) =~= abi_word(a));
    assert(abi_poly(x, a, y).subrange(64, 96) =~= abi_word(y));
}

/// Length and pieces of the identity encoding, each at its fixed position.
proof fn lemma_abi_identity_parts(a: Seq<u8>, b: Seq<u8>)
    ensures
        abi_identity(a, b).len() == 160 + a.len() + pad_amount(a.len()) + b.len() + pad_amount(
            b.len(),
        ),
        abi_identity(a, b).subrange(0, 32) == abi_word(32),
        abi_identity(a, b).subrange(32, 64) == abi_word(64),
        abi_identity(a, b).subrange(64, 96) == abi_word(
            (96 + a.len() + pad_amount(a.len())) as u32,
        ),
        abi_identity(a, b).subrange(96, 128) == abi_word(a.len() as u32),
        abi_identity(a, b).subrange(128, 128 + a.len() as int) == a,
        abi_identity(a, b).subrange(
            128 + a.len() as int,
            128 + a.len() as int + pad_amount(a.len()) as int,
        ) == zeros(pad_amount(a.len())),
        abi_identity(a, b).subrange(
            128 + a.len() as int + pad_amount(a.len()) as int,
            160 + a.len() as int + pad_amount(a.len()) as int,
        ) == abi_word(b.len() as u32),
        abi_identity(a, b).subrange(
            160 + a.len() as int + pad_amount(a.len()) as int,
            160 + a.len() as int + pad_amount(a.len()) as int + b.len() as int,
        ) == b,
        abi_identity(a, b).subrange(
            160 + a.len() as int + pad_amount(a.len()) as int + b.len() as int,
            160 + a.len() as int + pad_amount(a.len()) as int + b.len() as int + pad_amount(
                b.len(),
            ) as int,
        ) == zeros(pad_amount(b.len())),
{
    let s = abi_identity(a, b);
    let la = a.len() as int;
    let pa = pad_amount(a.len()) as int;
    let lb = b.len() as int;
    let pb = pad_amount(b.len()) as int;
    assert(s.subrange(0, 32) =~= abi_word(32));
    assert(s.subrange(32, 64) =~= abi_word(64));
    assert(s.subrange(64, 96) =~= abi_word((96 + a.len() + pad_amount(a.len())) as u32));
    assert(s.subrange(96, 128) =~= abi_word(a.len() as u32));
    assert(s.subrange(128, 128 + la) =~= a);
    assert(s.subrange(128 + la, 128 + la + pa) =~= zeros(pad_amount(a.len())));
    assert(s.subrange(128 + la + pa, 160 + la + pa) =~= abi_word(b.len() as u32));
    assert(s.subrange(160 + la + pa, 160 + la + pa + lb) =~= b);
    assert(s.subrange(160 + la + pa + lb, 160 + la + pa + lb + pb) =~= zeros(pad_amount(b.len())));
}

/// Field values are recoverable from an identity encoding: equal encodings
/// come from equal outputs. With the decoder's contract this is the round
/// trip: decoding an encoding yields the fields that were encoded.
pub proof fn lemma_abi_identity_injective(a: Seq<u8>, b: Seq<u8>, c: Seq<u8>, d: Seq<u8>)
    requires
        a.len() <= MAX_FIELD_LEN,
        b.len() <= MAX_FIELD_LEN,
        c.len() <= MAX_FIELD_LEN,
        d.len() <= MAX_FIELD_LEN,
        abi_identity(a, b) == abi_identity(c, d),
    ensures
        a == c,
        b == d,
{
    lemma_abi_identity_parts(a, b);
    lemma_abi_identity_parts(c, d);
    assert(abi_word(a.len() as u32) == abi_word(c.len() as u32));
    lemma_abi_word_injective(a.len() as u32, c.len() as u32);
    assert(a.len() == c.len());
    assert(a == c);
    assert(abi_word(b.len() as u32) == abi_word(d.len() as u32));
    lemma_abi_word_injective(b.len() as u32, d.len() as u32);
    assert(b.len() == d.len());
    assert(b == d);
}

/// Appends the 32-byte word of `v`.
fn push_word(out: &mut Vec<u8>, v: u32)
    ensures
        final(out)@ == old(out)@ + abi_word(v),
{
    let mut i: usize = 0;
    while i < 28
        invariant
            i <= 28,
            out@ == old(out)@ + zeros(i as nat),
        decreases 28 - i,
    {
        let ghost pre = out@;
        out.push(0u8);
        proof {
            assert(zeros((i + 1) as nat) =~= zeros(i as nat).push(0u8));
            assert(old(out)@ + zeros((i + 1) as nat) =~= pre.push(0u8));
        }
        i = i + 1;
    }
    out.push((v >> 24u32) as u8);
    out.push((v >> 16u32) as u8);
    out.push((v >> 8u32) as u8);
    out.push(v as u8);
    proof {
        assert(out@ =~= old(out)@ + abi_word(v));
    }
}

/// Appends `n` zero bytes.
fn push_zeros(out: &mut Vec<u8>, n: usize)
    ensures
        final(out)@ == old(out)@ + zeros(n as nat),
{
    let mut i: usize = 0;
    while i < n
        invariant
            i <= n,
            out@ == old(out)@ + zeros(i as nat),
        decreases n - i,
    {
        let ghost pre = out@;
        out.push(0u8);
        proof {
            assert(zeros((i + 1) as nat) =~= zeros(i as nat).push(0u8));
            assert(old(out)@ + zeros((i + 1) as nat) =~= pre.push(0u8));
        }
        i = i + 1;
    }
}

/// Appends the tail of a dynamic byte string.
fn push_bytes_tail(out: &mut Vec<u8>, b: &[u8])
    requires
        b@.len() <= MAX_FIELD_LEN,
    ensures
        final(out)@ == old(out)@ + abi_bytes_tail(b@),
{
    push_word(out, b.len() as u32);
    append_bytes(out, b);
    let rem: usize = b.len() % 32;
    let pad: usize = if rem == 0 {
        0
    } else {
        32 - rem
    };
    push_zeros(out, pad);
    proof {
        assert(out@ =~= old(out)@ + abi_bytes_tail(b@));
    }
}

/// Encodes the polynomial output into the fixed external schema:
/// `x`, `a` and `y`, each as one 32-byte word, in that order.
pub fn encode_poly_output(o: &PolyOutput) -> (r: Vec<u8>)
    ensures
        r@ == abi_poly(o.x, o.a, o.y),
        r@.len() == 96,
{
    let mut out: Vec<u8> = Vec::new();
    push_word(&mut out, o.x);
    push_word(&mut out, o.a);
    push_word(&mut out, o.y);
    proof {
        assert(out@ =~= abi_poly(o.x, o.a, o.y));
        lemma_abi_poly_parts(o.x, o.a, o.y);
    }
    out
}

/// Encodes an identity output into the fixed external schema: the offset of
/// the pair, the two field offsets, then each byte string as a length word,
/// its content, and zero padding to a word border.
pub fn encode_identity_output(o: &IdentityOutput) -> (r: Vec<u8>)
    requires
        o.address@.len() <= MAX_FIELD_LEN,
        o.aux_key@.len() <= MAX_FIELD_LEN,
    ensures
        r@ == abi_identity(o.address@, o.aux_key@),
{
    let mut out: Vec<u8> = Vec::new();
    push_word(&mut out, 32);
    push_word(&mut out, 64);
    let rem: usize = o.address.len() % 32;
    let pad_a: usize = if rem == 0 {
        0
    } else {
        32 - rem
    };
    let off2: usize = 96 + o.address.len() + pad_a;
    push_word(&mut out, off2 as u32);
    push_bytes_tail(&mut out, o.address.as_slice());
    push_bytes_tail(&mut out, o.aux_key.as_slice());
    proof {
        assert(out@ =~= abi_identity(o.address@, o.aux_key@));
    }
    out
}

/// Reads the 32-byte word at `pos`: its value if the 28 high bytes are zero.
fn read_word_u32(data: &[u8], pos: usize) -> (r: Option<u32>)
    requires
        pos + 32 <= data@.len(),
    ensures
        r is Some <==> is_word_at(data@, pos as int),
        r matches Some(v) ==> v == word_val(data@, pos as int),
{
    let n: usize = data.len();
    let mut i: usize = 0;
    while i < 28
        invariant
            pos + 32 <= n,
            n == data@.len(),
            i <= 28,
            forall|j: int| pos <= j < pos + i ==> data@[j] == 0,
        decreases 28 - i,
    {
        if data[pos + i] != 0 {
            proof {
                assert(!is_word_at(data@, pos as int)) by {
                    assert(data@[pos + i] != 0);
                }
            }
            return None;
        }
        i = i + 1;
    }
    let v: u32 = ((data[pos + 28] as u32) << 24u32) | ((data[pos + 29] as u32) << 16u32) | ((
    data[pos + 30] as u32) << 8u32) | (data[pos + 31] as u32);
    Some(v)
}

/// Whether every byte of `data[start..end)` is zero.
fn all_zero_range(data: &[u8], start: usize, end: usize) -> (r: bool)
    requires
        start <= end <= data@.len(),
    ensures
        r <==> (forall|j: int| start <= j < end ==> data@[j] == 0),
{
    let mut i: usize = start;
    while i < end
        invariant
            start <= i <= end <= data@.len(),
            forall|j: int| start <= j < i ==> data@[j] == 0,
        decreases end - i,
    {
        if data[i] != 0 {
            return false;
        }
        i = i + 1;
    }
    true
}

/// Decodes an identity output; `Some` exactly on well-formed encodings.
#[verifier::rlimit(100)]
fn decode_identity_inner(data: &[u8]) -> (r: Option<IdentityOutput>)
    ensures
        r is Some <==> identity_wf(data@),
        r matches Some(o) ==> o.address@.len() <= MAX_FIELD_LEN && o.aux_key@.len()
            <= MAX_FIELD_LEN && data@ == abi_identity(o.address@, o.aux_key@),
{
    if data.len() < 160 {
        return None;
    }
    let w0 = match read_word_u32(data, 0) {
        Some(v) => v,
        None => {
            return None;
        },
    };
    if w0 != 32 {
        return None;
    }
    let w1 = match read_word_u32(data, 32) {
        Some(v) => v,
        None => {
            return None;
        },
    };
    if w1 != 64 {
        return None;
    }
    let w2 = match read_word_u32(data, 64) {
        Some(v) => v,
        None => {
            return None;
        },
    };
    let wl = match read_word_u32(data, 96) {
        Some(v) => v,
        None => {
            return None;
        },
    };
    if wl as u64 > MAX_FIELD_LEN as u64 {
        return None;
    }
    let la: usize = wl as usize;
    let rem_a: usize = la % 32;
    let pad_a: usize = if rem_a == 0 {
        0
    } else {
        32 - rem_a
    };
    if w2 as u64 != (96 + la + pad_a) as u64 {
        return None;
    }
    if data.len() < 160 + la + pad_a {
        return None;
    }
    let posb: usize = 128 + la + pad_a;
    if !all_zero_range(data, 128 + la, posb) {
        return None;
    }
    let wlb = match read_word_u32(data, posb) {
        Some(v) => v,
        None => {
            return None;
        },
    };
    if wlb as u64 > MAX_FIELD_LEN as u64 {
        return None;
    }
    let lb: usize = wlb as usize;
    let rem_b: usize = lb % 32;
    let pad_b: usize = if rem_b == 0 {
        0
    } else {
        32 - rem_b
    };
    if data.len() != posb + 32 + lb + pad_b {
        return None;
    }
    if !all_zero_range(data, posb + 32 + lb, data.len()) {
        return None;
    }
    let address = copy_bytes(&data[128..128 + la]);
    let aux_key = copy_bytes(&data[posb + 32..posb + 32 + lb]);
    let o = IdentityOutput { address, aux_key };
    proof {
        let la_i = la as int;
        let pa_i = pad_a as int;
        let lb_i = lb as int;
        let pb_i = pad_b as int;
        let posb_i = posb as int;
        lemma_abi_word_from_val(data@, 0);
        lemma_abi_word_from_val(data@, 32);
        lemma_abi_word_from_val(data@, 64);
        lemma_abi_word_from_val(data@, 96);
        lemma_abi_word_from_val(data@, posb_i);
        lemma_abi_identity_parts(o.address@, o.aux_key@);
        let s = abi_identity(o.address@, o.aux_key@);
        assert(o.address@.len() == la_i);
        assert(o.aux_key@.len() == lb_i);
        assert(pad_amount(o.address@.len()) == pa_i);
        assert(pad_amount(o.aux_key@.len()) == pb_i);
        assert(s.len() == data@.len());
        assert(word_val(data@, 0) == 32u32);
        assert(word_val(data@, 32) == 64u32);
        assert(word_val(data@, 64) == (96 + o.address@.len() + pad_amount(
            o.address@.len(),
        )) as u32);
        assert(word_val(data@, 96) == o.address@.len() as u32);
        assert(word_val(data@, posb_i) == o.aux_key@.len() as u32);
        assert forall|i: int| 0 <= i < data@.len() implies data@[i] == s[i] by {
            if i < 32 {
                assert(data@[i] == data@.subrange(0, 32)[i]);
                assert(s[i] == s.subrange(0, 32)[i]);
            } else if i < 64 {
                assert(data@[i] == data@.subrange(32, 64)[i - 32]);
                assert(s[i] == s.subrange(32, 64)[i - 32]);
            } else if i < 96 {
                assert(data@[i] == data@.subrange(64, 96)[i - 64]);
                assert(s[i] == s.subrange(64, 96)[i - 64]);
            } else if i < 128 {
                assert(data@[i] == data@.subrange(96, 128)[i - 96]);
                assert(s[i] == s.subrange(96, 128)[i - 96]);
            } else if i < 128 + la_i {
                assert(data@[i] == data@.subrange(128, 128 + la_i)[i - 128]);
                assert(s[i] == s.subrange(128, 128 + la_i)[i - 128]);
            } else if i < posb_i {
                assert(data@[i] == 0);
                assert(s[i] == s.subrange(128 + la_i, 128 + la_i + pa_i)[i - 128 - la_i]);
            } else if i < posb_i + 32 {
                assert(data@[i] == data@.subrange(posb_i, posb_i + 32)[i - posb_i]);
                assert(s[i] == s.subrange(posb_i, posb_i + 32)[i - posb_i]);
            } else if i < posb_i + 32 + lb_i {
                assert(data@[i] == data@.subrange(posb_i + 32, posb_i + 32 + lb_i)[i - posb_i
                    - 32]);
                assert(s[i] == s.subrange(posb_i + 32, posb_i + 32 + lb_i)[i - posb_i - 32]);
            } else {
                assert(data@[i] == 0);
                assert(s[i] == s.subrange(
                    posb_i + 32 + lb_i,
                    posb_i + 32 + lb_i + pb_i,
                )[i - posb_i - 32 - lb_i]);
            }
        }
        assert(data@ =~= s);
    }
    Some(o)
}

/// `abi_identity` encodings are well formed.
proof fn lemma_identity_wf_of_abi(a: Seq<u8>, b: Seq<u8>)
    requires
        a.len() <= MAX_FIELD_LEN,
        b.len() <= MAX_FIELD_LEN,
    ensures
        identity_wf(abi_identity(a, b)),
{
    let s = abi_identity(a, b);
    lemma_abi_identity_parts(a, b);
    let la = a.len() as int;
    let pa = pad_amount(a.len()) as int;
    let lb = b.len() as int;
    let pb = pad_amount(b.len()) as int;
    lemma_word_at_abi(s, 0, 32);
    lemma_word_at_abi(s, 32, 64);
    lemma_word_at_abi(s, 64, (96 + a.len() + pad_amount(a.len())) as u32);
    lemma_word_at_abi(s, 96, a.len() as u32);
    lemma_word_at_abi(s, 128 + la + pa, b.len() as u32);
    assert(word_val(s, 96) as int == la);
    assert forall|j: int| 128 + la <= j < 128 + la + pa implies s[j] == 0 by {
        assert(s[j] == s.subrange(128 + la, 128 + la + pa)[j - 128 - la]);
    }
    assert forall|j: int| 160 + la + pa + lb <= j < s.len() as int implies s[j] == 0 by {
        assert(s[j] == s.subrange(160 + la + pa + lb, 160 + la + pa + lb + pb)[j - 160 - la - pa
            - lb]);
    }
}

/// Decodes bytes in the external identity schema back into an identity
/// output. Strict: `Some` only on exact canonical encodings, and decoding an
/// encoding recovers exactly the fields that were encoded.
pub fn decode_identity_output(data: &[u8]) -> (r: Option<IdentityOutput>)
    ensures
        r matches Some(o) ==> o.address@.len() <= MAX_FIELD_LEN && o.aux_key@.len()
            <= MAX_FIELD_LEN && data@ == abi_identity(o.address@, o.aux_key@),
        forall|a: Seq<u8>, b: Seq<u8>|
            (a.len() <= MAX_FIELD_LEN && b.len() <= MAX_FIELD_LEN && data@ == abi_identity(a, b))
                ==> (r matches Some(o) && o.address@ == a && o.aux_key@ == b),
{
    let r = decode_identity_inner(data);
    proof {
        assert forall|a: Seq<u8>, b: Seq<u8>|
            (a.len() <= MAX_FIELD_LEN && b.len() <= MAX_FIELD_LEN && data@ == abi_identity(
                a,
                b,
            )) implies (r matches Some(o) && o.address@ == a && o.aux_key@ == b) by {
            lemma_identity_wf_of_abi(a, b);
            assert(r is Some);
            let o = r.unwrap();
            lemma_abi_identity_injective(a, b, o.address@, o.aux_key@);
        }
    }
    r
}

/// Decodes bytes in the external polynomial schema back into a polynomial
/// output. Strict: `Some` only on exact 96-byte encodings, and decoding an
/// encoding recovers exactly the fields that were encoded.
pub fn decode_poly_output(data: &[u8]) -> (r: Option<PolyOutput>)
    ensures
        r matches Some(o) ==> data@ == abi_poly(o.x, o.a, o.y),
        forall|x: u32, a: u32, y: u32|
            data@ == abi_poly(x, a, y) ==> (r matches Some(o) && o.x == x && o.a == a && o.y == y),
{
    if data.len() != 96 {
        proof {
            assert forall|x: u32, a: u32, y: u32| data@ != abi_poly(x, a, y) by {
                lemma_abi_poly_parts(x, a, y);
            }
        }
        return None;
    }
    let w0 = match read_word_u32(data, 0) {
        Some(v) => v,
        None => {
            proof {
                assert forall|x: u32, a: u32, y: u32| data@ != abi_poly(x, a, y) by {
                    lemma_abi_poly_parts(x, a, y);
                    if data@ == abi_poly(x, a, y) {
                        lemma_word_at_abi(data@, 0, x);
                    }
                }
            }
            return None;
        },
    };
    let w1 = match read_word_u32(data, 32) {
        Some(v) => v,
        None => {
            proof {
                assert forall|x: u32, a: u32, y: u32| data@ != abi_poly(x, a, y) by {
                    lemma_abi_poly_parts(x, a, y);
                    if data@ == abi_poly(x, a, y) {
                        lemma_word_at_abi(data@, 32, a);
                    }
                }
            }
            return None;
        },
    };
    let w2 = match read_word_u32(data, 64) {
        Some(v) => v,
        None => {
            proof {
                assert forall|x: u32, a: u32, y: u32| data@ != abi_poly(x, a, y) by {
                    lemma_abi_poly_parts(x, a, y);
                    if data@ == abi_poly(x, a, y) {
                        lemma_word_at_abi(data@, 64, y);
                    }
                }
            }
            return None;
        },
    };
    let o = PolyOutput { x: w0, a: w1, y: w2 };
    proof {
        lemma_abi_word_from_val(data@, 0);
        lemma_abi_word_from_val(data@, 32);
        lemma_abi_word_from_val(data@, 64);
        lemma_abi_poly_parts(o.x, o.a, o.y);
        let s = abi_poly(o.x, o.a, o.y);
        assert forall|i: int| 0 <= i < data@.len() implies data@[i] == s[i] by {
            if i < 32 {
                assert(data@[i] == data@.subrange(0, 32)[i]);
                assert(s[i] == s.subrange(0, 32)[i]);
            } else if i < 64 {
                assert(data@[i] == data@.subrange(32, 64)[i - 32]);
                assert(s[i] == s.subrange(32, 64)[i - 32]);
            } else {
                assert(data@[i] == data@.subrange(64, 96)[i - 64]);
                assert(s[i] == s.subrange(64, 96)[i - 64]);
            }
        }
        assert(data@ =~= abi_poly(o.x, o.a, o.y));
        assert forall|x: u32, a: u32, y: u32| data@ == abi_poly(x, a, y) implies (o.x == x && o.a
            == a && o.y == y) by {
            lemma_abi_poly_parts(x, a, y);
            lemma_word_at_abi(data@, 0, x);
            lemma_word_at_abi(data@, 32, a);
            lemma_word_at_abi(data@, 64, y);
        }
    }
    Some(o)
}

} // verus!
