//! The canonical binary encoding of a snapshot: a fixed-layout,
//! length-prefixed serialization with field order significant. Every
//! integer is one little-endian 16-byte word (signed values are shifted
//! into non-negative range first), every optional field carries a
//! one-byte presence flag, every string its byte length and UTF-8 bytes,
//! and every list an element count followed by the elements. Decoding
//! inverts encoding exactly; corrupt input is rejected, never
//! misread.

use vstd::prelude::*;
use vstd::arithmetic::div_mod::lemma_fundamental_div_mod;
use vstd::utf8::{valid_utf8, decode_utf8, encode_utf8};
use vstd::string::StrSliceExecFns;
use crate::snapshot::{PidStatus, PidStatusV, EncoDecode, EncoDecodeV};
use crate::usage::{CpuUsage, USAGE_BOUND};

verus! {

/// 256 to the power `n`: the number of values of an `n`-byte word.
pub open spec fn pow256(n: nat) -> nat
    decreases n,
{
    if n == 0 {
        1
    } else {
        256 * pow256((n - 1) as nat)
    }
}

/// The `n` little-endian base-256 digits of `v`.
pub open spec fn le_bytes(v: nat, n: nat) -> Seq<u8>
    decreases n,
{
    if n == 0 {
        Seq::empty()
    } else {
        seq![(v % 256) as u8] + le_bytes(v / 256, (n - 1) as nat)
    }
}

/// The value of a little-endian base-256 digit sequence.
pub open spec fn from_le(b: Seq<u8>) -> nat
    decreases b.len(),
{
    if b.len() == 0 {
        0
    } else {
        b[0] as nat + 256 * from_le(b.drop_first())
    }
}

pub broadcast proof fn lemma_le_bytes_len(v: nat, n: nat)
    ensures
        (#[trigger] le_bytes(v, n)).len() == n,
    decreases n,
{
    if n > 0 {
        lemma_le_bytes_len(v / 256, (n - 1) as nat);
    }
}

pub proof fn lemma_pow256_16()
    ensures
        pow256(16) == 0x100000000000000000000000000000000,
{
    reveal_with_fuel(pow256, 17);
}

pub proof fn lemma_pow256_mono(a: nat, b: nat)
    requires
        a <= b,
    ensures
        pow256(a) <= pow256(b),
    decreases b,
{
    if a < b {
        lemma_pow256_mono(a, (b - 1) as nat);
    }
}

pub proof fn lemma_from_le_bound(b: Seq<u8>)
    ensures
        from_le(b) < pow256(b.len()),
    decreases b.len(),
{
    if b.len() > 0 {
        lemma_from_le_bound(b.drop_first());
    }
}

pub proof fn lemma_le_round_trip(v: nat, n: nat)
    requires
        v < pow256(n),
    ensures
        from_le(le_bytes(v, n)) == v,
    decreases n,
{
    broadcast use lemma_le_bytes_len;

    if n == 0 {
    } else {
        lemma_fundamental_div_mod(v as int, 256);
        assert(v % 256 < 256) by (nonlinear_arith);
        assert(v / 256 < pow256((n - 1) as nat)) by (nonlinear_arith)
            requires
                v < 256 * pow256((n - 1) as nat),
                v == 256 * (v / 256) + v % 256,
                v % 256 >= 0,
        ;
        lemma_le_round_trip(v / 256, (n - 1) as nat);
        assert(le_bytes(v, n).drop_first() =~= le_bytes(v / 256, (n - 1) as nat));
        assert(le_bytes(v, n)[0] == (v % 256) as u8);
    }
}

/// Sequence concatenation associates; used to peel one field's encoding
/// off the front of a larger one.
pub proof fn lemma_concat_assoc(a: Seq<u8>, b: Seq<u8>, c: Seq<u8>)
    ensures
        (a + b) + c == a + (b + c),
{
    assert((a + b) + c =~= a + (b + c));
}

/// One 16-byte little-endian word.
pub open spec fn enc_word(u: nat) -> Seq<u8> {
    le_bytes(u, 16)
}

/// Reads one 16-byte little-endian word off the front of `s`.
pub open spec fn dec_word(s: Seq<u8>) -> Option<(u128, Seq<u8>)> {
    if s.len() >= 16 {
        Some(((from_le(s.take(16)) as u128), s.skip(16)))
    } else {
        None
    }
}

pub proof fn lemma_word_round_trip(u: u128, rest: Seq<u8>)
    ensures
        dec_word(enc_word(u as nat) + rest) == Some((u, rest)),
{
    broadcast use lemma_le_bytes_len;

    let w = enc_word(u as nat);
    lemma_pow256_16();
    lemma_le_round_trip(u as nat, 16);
    assert((w + rest).take(16) =~= w);
    assert((w + rest).skip(16) =~= rest);
}

/// Appends the 16-byte little-endian encoding of `v`.
fn write_word(out: &mut Vec<u8>, v: u128)
    ensures
        final(out)@ == old(out)@ + enc_word(v as nat),
{
    proof {
        broadcast use lemma_le_bytes_len;

    }
    let ghost base = old(out)@;
    let ghost w = le_bytes(v as nat, 16);
    let mut x: u128 = v;
    let mut k: usize = 0;
    while k < 16
        invariant
            k <= 16,
            w == le_bytes(v as nat, 16),
            w.len() == 16,
            out@ == base + w.take(k as int),
            le_bytes(x as nat, (16 - k) as nat) == w.skip(k as int),
        decreases 16 - k,
    {
        proof {
            broadcast use lemma_le_bytes_len;

            assert(x % 256 < 256) by (nonlinear_arith);
            assert(le_bytes(x as nat, (16 - k) as nat) == seq![((x as nat) % 256) as u8]
                + le_bytes((x as nat) / 256, (15 - k) as nat));
            assert(w.skip(k as int)[0] == w[k as int]);
            assert(w.take(k as int + 1) =~= w.take(k as int) + seq![w[k as int]]);
            assert(w.skip(k as int).drop_first() =~= w.skip(k as int + 1));
        }
        let b = (x % 256) as u8;
        out.push(b);
        x = x / 256;
        k = k + 1;
    }
    proof {
        assert(w.take(16) =~= w);
    }
}

/// Reads one 16-byte little-endian word at `pos`.
fn read_word(b: &Vec<u8>, pos: usize) -> (r: Option<(u128, usize)>)
    requires
        pos <= b.len(),
    ensures
        match r {
            Some(vp) => vp.1 == pos + 16 && vp.1 <= b.len() && dec_word(b@.skip(pos as int))
                == Some((vp.0, b@.skip(vp.1 as int))),
            None => dec_word(b@.skip(pos as int)) is None,
        },
{
    if b.len() - pos < 16 {
        proof {
            assert(b@.skip(pos as int).len() < 16);
        }
        return None;
    }
    let mut acc: u128 = 0;
    let mut k: usize = 0;
    while k < 16
        invariant
            k <= 16,
            pos + 16 <= b.len(),
            acc as nat == from_le(b@.subrange(pos + 16 - k, pos + 16)),
            (acc as nat) < pow256(k as nat),
        decreases 16 - k,
    {
        let j = pos + 15 - k;
        proof {
            let s = b@.subrange(j as int, pos + 16);
            assert(s.drop_first() =~= b@.subrange(j + 1, pos + 16));
            assert(s[0] == b@[j as int]);
            lemma_pow256_mono((k + 1) as nat, 16);
            lemma_pow256_16();
        }
        acc = acc * 256 + (b[j] as u128);
        k = k + 1;
    }
    proof {
        assert(b@.subrange(pos as int, pos + 16) =~= b@.skip(pos as int).take(16));
        assert(b@.skip(pos as int).skip(16) =~= b@.skip(pos + 16));
        lemma_from_le_bound(b@.skip(pos as int).take(16));
        lemma_pow256_16();
    }
    Some((acc, pos + 16))
}

// --- fixed-width integers, shifted into a non-negative word ---

/// A `u64` as one word.
pub open spec fn enc_u64(v: u64) -> Seq<u8> {
    enc_word(v as nat)
}

pub open spec fn dec_u64(s: Seq<u8>) -> Option<(u64, Seq<u8>)> {
    match dec_word(s) {
        Some((u, r)) => if u <= u64::MAX as u128 {
            Some((u as u64, r))
        } else {
            None
        },
        None => None,
    }
}

pub proof fn lemma_u64_round_trip(v: u64, rest: Seq<u8>)
    ensures
        dec_u64(enc_u64(v) + rest) == Some((v, rest)),
{
    lemma_word_round_trip(v as u128, rest);
}

/// A `u32` as one word.
pub open spec fn enc_u32(v: u32) -> Seq<u8> {
    enc_word(v as nat)
}

pub open spec fn dec_u32(s: Seq<u8>) -> Option<(u32, Seq<u8>)> {
    match dec_word(s) {
        Some((u, r)) => if u <= u32::MAX as u128 {
            Some((u as u32, r))
        } else {
            None
        },
        None => None,
    }
}

pub proof fn lemma_u32_round_trip(v: u32, rest: Seq<u8>)
    ensures
        dec_u32(enc_u32(v) + rest) == Some((v, rest)),
{
    lemma_word_round_trip(v as u128, rest);
}

/// An `i32`, shifted by `2^31` into a non-negative word.
pub open spec fn enc_i32(v: i32) -> Seq<u8> {
    enc_word((v + 0x80000000) as nat)
}

pub open spec fn dec_i32(s: Seq<u8>) -> Option<(i32, Seq<u8>)> {
    match dec_word(s) {
        Some((u, r)) => if u <= u32::MAX as u128 {
            Some((((u as int) - 0x80000000) as i32, r))
        } else {
            None
        },
        None => None,
    }
}

pub proof fn lemma_i32_round_trip(v: i32, rest: Seq<u8>)
    ensures
        dec_i32(enc_i32(v) + rest) == Some((v, rest)),
{
    lemma_word_round_trip(((v + 0x80000000) as int) as u128, rest);
}

/// An `i64`, shifted by `2^63` into a non-negative word.
pub open spec fn enc_i64(v: i64) -> Seq<u8> {
    enc_word((v + 0x8000000000000000) as nat)
}

pub open spec fn dec_i64(s: Seq<u8>) -> Option<(i64, Seq<u8>)> {
    match dec_word(s) {
        Some((u, r)) => if u <= u64::MAX as u128 {
            Some((((u as int) - 0x8000000000000000) as i64, r))
        } else {
            None
        },
        None => None,
    }
}

pub proof fn lemma_i64_round_trip(v: i64, rest: Seq<u8>)
    ensures
        dec_i64(enc_i64(v) + rest) == Some((v, rest)),
{
    lemma_word_round_trip(((v + 0x8000000000000000) as int) as u128, rest);
}

/// A usage-ratio field, shifted by `USAGE_BOUND` into a non-negative
/// word; only fields within the estimator's bound are encodable.
pub open spec fn enc_iusage(v: i128) -> Seq<u8> {
    enc_word((v + USAGE_BOUND) as nat)
}

pub open spec fn dec_iusage(s: Seq<u8>) -> Option<(i128, Seq<u8>)> {
    match dec_word(s) {
        Some((u, r)) => if u <= (2 * USAGE_BOUND) as u128 {
            Some((((u as int) - USAGE_BOUND) as i128, r))
        } else {
            None
        },
        None => None,
    }
}

pub proof fn lemma_iusage_round_trip(v: i128, rest: Seq<u8>)
    requires
        -USAGE_BOUND <= v <= USAGE_BOUND,
    ensures
        dec_iusage(enc_iusage(v) + rest) == Some((v, rest)),
{
    lemma_word_round_trip(((v + USAGE_BOUND) as int) as u128, rest);
}

// --- presence flags and optional fields ---

pub open spec fn dec_byte(s: Seq<u8>) -> Option<(u8, Seq<u8>)> {
    if s.len() >= 1 {
        Some((s[0], s.skip(1)))
    } else {
        None
    }
}

pub proof fn lemma_byte_round_trip(v: u8, rest: Seq<u8>)
    ensures
        dec_byte(seq![v] + rest) == Some((v, rest)),
{
    assert((seq![v] + rest).skip(1) =~= rest);
}

/// An optional `u64`: a presence flag, then the value if present.
pub open spec fn enc_opt_u64(o: Option<u64>) -> Seq<u8> {
    match o {
        None => seq![0u8],
        Some(v) => seq![1u8] + enc_u64(v),
    }
}

pub open spec fn dec_opt_u64(s: Seq<u8>) -> Option<(Option<u64>, Seq<u8>)> {
    match dec_byte(s) {
        Some((f, r)) => if f == 0 {
            Some((None, r))
        } else if f == 1 {
            match dec_u64(r) {
                Some((v, r2)) => Some((Some(v), r2)),
                None => None,
            }
        } else {
            None
        },
        None => None,
    }
}

pub proof fn lemma_opt_u64_round_trip(o: Option<u64>, rest: Seq<u8>)
    ensures
        dec_opt_u64(enc_opt_u64(o) + rest) == Some((o, rest)),
{
    match o {
        None => {
            lemma_byte_round_trip(0, rest);
        },
        Some(v) => {
            lemma_concat_assoc(seq![1u8], enc_u64(v), rest);
            lemma_byte_round_trip(1, enc_u64(v) + rest);
            lemma_u64_round_trip(v, rest);
        },
    }
}

/// An optional `i32`: a presence flag, then the value if present.
pub open spec fn enc_opt_i32(o: Option<i32>) -> Seq<u8> {
    match o {
        None => seq![0u8],
        Some(v) => seq![1u8] + enc_i32(v),
    }
}

pub open spec fn dec_opt_i32(s: Seq<u8>) -> Option<(Option<i32>, Seq<u8>)> {
    match dec_byte(s) {
        Some((f, r)) => if f == 0 {
            Some((None, r))
        } else if f == 1 {
            match dec_i32(r) {
                Some((v, r2)) => Some((Some(v), r2)),
                None => None,
            }
        } else {
            None
        },
        None => None,
    }
}

pub proof fn lemma_opt_i32_round_trip(o: Option<i32>, rest: Seq<u8>)
    ensures
        dec_opt_i32(enc_opt_i32(o) + rest) == Some((o, rest)),
{
    match o {
        None => {
            lemma_byte_round_trip(0, rest);
        },
        Some(v) => {
            lemma_concat_assoc(seq![1u8], enc_i32(v), rest);
            lemma_byte_round_trip(1, enc_i32(v) + rest);
            lemma_i32_round_trip(v, rest);
        },
    }
}

// --- strings: byte length, then UTF-8 bytes ---

/// A string: one word with the UTF-8 byte length, then the bytes.
pub open spec fn enc_str(t: Seq<char>) -> Seq<u8> {
    enc_word(encode_utf8(t).len()) + encode_utf8(t)
}

pub open spec fn dec_str(s: Seq<u8>) -> Option<(Seq<char>, Seq<u8>)> {
    match dec_word(s) {
        Some((n, r)) => if (n as int) <= r.len() {
            if valid_utf8(r.take(n as int)) {
                Some((decode_utf8(r.take(n as int)), r.skip(n as int)))
            } else {
                None
            }
        } else {
            None
        },
        None => None,
    }
}

pub proof fn lemma_str_round_trip(t: Seq<char>, rest: Seq<u8>)
    requires
        encode_utf8(t).len() < pow256(16),
    ensures
        dec_str(enc_str(t) + rest) == Some((t, rest)),
{
    broadcast use vstd::utf8::encode_utf8_valid_utf8, vstd::utf8::encode_utf8_decode_utf8;

    let bs = encode_utf8(t);
    lemma_pow256_16();
    lemma_concat_assoc(enc_word(bs.len()), bs, rest);
    lemma_word_round_trip((bs.len() as int) as u128, bs + rest);
    assert((bs + rest).take(bs.len() as int) =~= bs);
    assert((bs + rest).skip(bs.len() as int) =~= rest);
}

// --- lists of strings: element count, then the elements ---

/// The elements of a string list, back to back.
pub open spec fn enc_str_seq(l: Seq<Seq<char>>) -> Seq<u8>
    decreases l.len(),
{
    if l.len() == 0 {
        Seq::empty()
    } else {
        enc_str(l[0]) + enc_str_seq(l.drop_first())
    }
}

/// A string list: one word with the element count, then the elements.
pub open spec fn enc_str_list(l: Seq<Seq<char>>) -> Seq<u8> {
    enc_word(l.len()) + enc_str_seq(l)
}

pub open spec fn dec_strs(s: Seq<u8>, n: nat) -> Option<(Seq<Seq<char>>, Seq<u8>)>
    decreases n,
{
    if n == 0 {
        Some((Seq::empty(), s))
    } else {
        match dec_str(s) {
            Some((t, r)) => match dec_strs(r, (n - 1) as nat) {
                Some((ts, r2)) => Some((seq![t] + ts, r2)),
                None => None,
            },
            None => None,
        }
    }
}

pub open spec fn dec_str_list(s: Seq<u8>) -> Option<(Seq<Seq<char>>, Seq<u8>)> {
    match dec_word(s) {
        Some((n, r)) => dec_strs(r, n as nat),
        None => None,
    }
}

/// Appending one string to a list appends its encoding.
pub proof fn lemma_enc_str_seq_push(l: Seq<Seq<char>>, t: Seq<char>)
    ensures
        enc_str_seq(l.push(t)) == enc_str_seq(l) + enc_str(t),
    decreases l.len(),
{
    if l.len() == 0 {
        assert(l.push(t)[0] == t);
        assert(l.push(t).drop_first() =~= Seq::<Seq<char>>::empty());
        assert(enc_str_seq(Seq::<Seq<char>>::empty()) == Seq::<u8>::empty());
        assert(enc_str_seq(l.push(t)) =~= enc_str_seq(l) + enc_str(t));
    } else {
        assert(l.push(t)[0] == l[0]);
        assert(l.push(t).drop_first() =~= l.drop_first().push(t));
        lemma_enc_str_seq_push(l.drop_first(), t);
        lemma_concat_assoc(enc_str(l[0]), enc_str_seq(l.drop_first()), enc_str(t));
    }
}

pub proof fn lemma_strs_round_trip(l: Seq<Seq<char>>, rest: Seq<u8>)
    requires
        forall|i: int| 0 <= i < l.len() ==> encode_utf8(#[trigger] l[i]).len() < pow256(16),
    ensures
        dec_strs(enc_str_seq(l) + rest, l.len()) == Some((l, rest)),
    decreases l.len(),
{
    if l.len() == 0 {
        assert(enc_str_seq(l) + rest =~= rest);
        assert(l =~= Seq::<Seq<char>>::empty());
    } else {
        lemma_concat_assoc(enc_str(l[0]), enc_str_seq(l.drop_first()), rest);
        lemma_str_round_trip(l[0], enc_str_seq(l.drop_first()) + rest);
        lemma_strs_round_trip(l.drop_first(), rest);
        assert(seq![l[0]] + l.drop_first() =~= l);
    }
}

pub proof fn lemma_str_list_round_trip(l: Seq<Seq<char>>, rest: Seq<u8>)
    requires
        l.len() < pow256(16),
        forall|i: int| 0 <= i < l.len() ==> encode_utf8(#[trigger] l[i]).len() < pow256(16),
    ensures
        dec_str_list(enc_str_list(l) + rest) == Some((l, rest)),
{
    lemma_pow256_16();
    lemma_concat_assoc(enc_word(l.len()), enc_str_seq(l), rest);
    lemma_word_round_trip((l.len() as int) as u128, enc_str_seq(l) + rest);
    lemma_strs_round_trip(l, rest);
}

// --- executable writers ---

fn write_u64(out: &mut Vec<u8>, v: u64)
    ensures
        final(out)@ == old(out)@ + enc_u64(v),
{
    write_word(out, v as u128);
}

fn write_u32(out: &mut Vec<u8>, v: u32)
    ensures
        final(out)@ == old(out)@ + enc_u32(v),
{
    write_word(out, v as u128);
}

fn write_i32(out: &mut Vec<u8>, v: i32)
    ensures
        final(out)@ == old(out)@ + enc_i32(v),
{
    write_word(out, ((v as i64) + 0x80000000) as u128);
}

fn write_i64(out: &mut Vec<u8>, v: i64)
    ensures
        final(out)@ == old(out)@ + enc_i64(v),
{
    write_word(out, ((v as i128) + 0x8000000000000000) as u128);
}

fn write_iusage(out: &mut Vec<u8>, v: i128)
    requires
        -USAGE_BOUND <= v <= USAGE_BOUND,
    ensures
        final(out)@ == old(out)@ + enc_iusage(v),
{
    write_word(out, (v + USAGE_BOUND) as u128);
}

fn write_byte(out: &mut Vec<u8>, v: u8)
    ensures
        final(out)@ == old(out)@ + seq![v],
{
    out.push(v);
    proof {
        assert(old(out)@.push(v) =~= old(out)@ + seq![v]);
    }
}

fn write_opt_u64(out: &mut Vec<u8>, o: Option<u64>)
    ensures
        final(out)@ == old(out)@ + enc_opt_u64(o),
{
    match o {
        None => {
            write_byte(out, 0);
        },
        Some(v) => {
            write_byte(out, 1);
            write_u64(out, v);
            proof {
                lemma_concat_assoc(old(out)@, seq![1u8], enc_u64(v));
                lemma_concat_assoc(seq![1u8], enc_u64(v), Seq::empty());
                assert((old(out)@ + seq![1u8]) + enc_u64(v) =~= old(out)@ + (seq![1u8]
                    + enc_u64(v)));
            }
        },
    }
}

fn write_opt_i32(out: &mut Vec<u8>, o: Option<i32>)
    ensures
        final(out)@ == old(out)@ + enc_opt_i32(o),
{
    match o {
        None => {
            write_byte(out, 0);
        },
        Some(v) => {
            write_byte(out, 1);
            write_i32(out, v);
            proof {
                assert((old(out)@ + seq![1u8]) + enc_i32(v) =~= old(out)@ + (seq![1u8]
                    + enc_i32(v)));
            }
        },
    }
}

fn write_str(out: &mut Vec<u8>, s: &String)
    ensures
        final(out)@ == old(out)@ + enc_str(s@),
{
    let mut bs: Vec<u8> = s.as_str().as_bytes_vec();
    write_word(out, bs.len() as u128);
    proof {
        assert(bs@ == encode_utf8(s@));
    }
    out.append(&mut bs);
    proof {
        assert((old(out)@ + enc_word(encode_utf8(s@).len())) + encode_utf8(s@) =~= old(out)@
            + enc_str(s@));
    }
}

fn write_str_vec(out: &mut Vec<u8>, l: &Vec<String>)
    ensures
        final(out)@ == old(out)@ + enc_str_list(l.deep_view()),
{
    let ghost base = out@;
    let ghost dv = l.deep_view();
    write_word(out, l.len() as u128);
    let ghost w = enc_word(dv.len());
    let mut i: usize = 0;
    proof {
        assert(dv.take(0) =~= Seq::<Seq<char>>::empty());
        assert(enc_str_seq(Seq::<Seq<char>>::empty()) == Seq::<u8>::empty());
        assert((base + w) + Seq::<u8>::empty() =~= base + w);
    }
    while i < l.len()
        invariant
            i <= l.len(),
            dv == l.deep_view(),
            dv.len() == l@.len(),
            out@ == (base + w) + enc_str_seq(dv.take(i as int)),
        decreases l.len() - i,
    {
        proof {
            assert(dv[i as int] == l@[i as int]@);
        }
        write_str(out, &l[i]);
        proof {
            lemma_enc_str_seq_push(dv.take(i as int), dv[i as int]);
            assert(dv.take(i as int + 1) =~= dv.take(i as int).push(dv[i as int]));
            lemma_concat_assoc(base + w, enc_str_seq(dv.take(i as int)), enc_str(dv[i as int]));
        }
        i = i + 1;
    }
    proof {
        assert(dv.take(l@.len() as int) =~= dv);
        lemma_concat_assoc(base, w, enc_str_seq(dv));
    }
}

// --- executable readers ---

fn read_u64(b: &Vec<u8>, pos: usize) -> (r: Option<(u64, usize)>)
    requires
        pos <= b.len(),
    ensures
        match r {
            Some(vp) => pos <= vp.1 <= b.len() && dec_u64(b@.skip(pos as int)) == Some(
                (vp.0, b@.skip(vp.1 as int)),
            ),
            None => dec_u64(b@.skip(pos as int)) is None,
        },
{
    match read_word(b, pos) {
        None => None,
        Some((u, p2)) => if u <= u64::MAX as u128 {
            Some((u as u64, p2))
        } else {
            None
        },
    }
}

fn read_u32(b: &Vec<u8>, pos: usize) -> (r: Option<(u32, usize)>)
    requires
        pos <= b.len(),
    ensures
        match r {
            Some(vp) => pos <= vp.1 <= b.len() && dec_u32(b@.skip(pos as int)) == Some(
                (vp.0, b@.skip(vp.1 as int)),
            ),
            None => dec_u32(b@.skip(pos as int)) is None,
        },
{
    match read_word(b, pos) {
        None => None,
        Some((u, p2)) => if u <= u32::MAX as u128 {
            Some((u as u32, p2))
        } else {
            None
        },
    }
}

fn read_i32(b: &Vec<u8>, pos: usize) -> (r: Option<(i32, usize)>)
    requires
        pos <= b.len(),
    ensures
        match r {
            Some(vp) => pos <= vp.1 <= b.len() && dec_i32(b@.skip(pos as int)) == Some(
                (vp.0, b@.skip(vp.1 as int)),
            ),
            None => dec_i32(b@.skip(pos as int)) is None,
        },
{
    match read_word(b, pos) {
        None => None,
        Some((u, p2)) => if u <= u32::MAX as u128 {
            Some((((u as i64) - 0x80000000) as i32, p2))
        } else {
            None
        },
    }
}

fn read_i64(b: &Vec<u8>, pos: usize) -> (r: Option<(i64, usize)>)
    requires
        pos <= b.len(),
    ensures
        match r {
            Some(vp) => pos <= vp.1 <= b.len() && dec_i64(b@.skip(pos as int)) == Some(
                (vp.0, b@.skip(vp.1 as int)),
            ),
            None => dec_i64(b@.skip(pos as int)) is None,
        },
{
    match read_word(b, pos) {
        None => None,
        Some((u, p2)) => if u <= u64::MAX as u128 {
            Some((((u as i128) - 0x8000000000000000) as i64, p2))
        } else {
            None
        },
    }
}

fn read_iusage(b: &Vec<u8>, pos: usize) -> (r: Option<(i128, usize)>)
    requires
        pos <= b.len(),
    ensures
        match r {
            Some(vp) => pos <= vp.1 <= b.len() && dec_iusage(b@.skip(pos as int)) == Some(
                (vp.0, b@.skip(vp.1 as int)),
            ) && -USAGE_BOUND <= vp.0 <= USAGE_BOUND,
            None => dec_iusage(b@.skip(pos as int)) is None,
        },
{
    match read_word(b, pos) {
        None => None,
        Some((u, p2)) => if u <= (2 * USAGE_BOUND) as u128 {
            Some(((u as i128) - USAGE_BOUND, p2))
        } else {
            None
        },
    }
}

fn read_byte(b: &Vec<u8>, pos: usize) -> (r: Option<(u8, usize)>)
    requires
        pos <= b.len(),
    ensures
        match r {
            Some(vp) => pos <= vp.1 <= b.len() && dec_byte(b@.skip(pos as int)) == Some(
                (vp.0, b@.skip(vp.1 as int)),
            ),
            None => dec_byte(b@.skip(pos as int)) is None,
        },
{
    if pos < b.len() {
        proof {
            assert(b@.skip(pos as int)[0] == b@[pos as int]);
            assert(b@.skip(pos as int).skip(1) =~= b@.skip(pos as int + 1));
        }
        Some((b[pos], pos + 1))
    } else {
        None
    }
}

fn read_opt_u64(b: &Vec<u8>, pos: usize) -> (r: Option<(Option<u64>, usize)>)
    requires
        pos <= b.len(),
    ensures
        match r {
            Some(vp) => pos <= vp.1 <= b.len() && dec_opt_u64(b@.skip(pos as int)) == Some(
                (vp.0, b@.skip(vp.1 as int)),
            ),
            None => dec_opt_u64(b@.skip(pos as int)) is None,
        },
{
    match read_byte(b, pos) {
        None => None,
        Some((f, p1)) => if f == 0 {
            Some((None, p1))
        } else if f == 1 {
            match read_u64(b, p1) {
                None => None,
                Some((v, p2)) => Some((Some(v), p2)),
            }
        } else {
            None
        },
    }
}

fn read_opt_i32(b: &Vec<u8>, pos: usize) -> (r: Option<(Option<i32>, usize)>)
    requires
        pos <= b.len(),
    ensures
        match r {
            Some(vp) => pos <= vp.1 <= b.len() && dec_opt_i32(b@.skip(pos as int)) == Some(
                (vp.0, b@.skip(vp.1 as int)),
            ),
            None => dec_opt_i32(b@.skip(pos as int)) is None,
        },
{
    match read_byte(b, pos) {
        None => None,
        Some((f, p1)) => if f == 0 {
            Some((None, p1))
        } else if f == 1 {
            match read_i32(b, p1) {
                None => None,
                Some((v, p2)) => Some((Some(v), p2)),
            }
        } else {
            None
        },
    }
}

/// Copies one byte range of the buffer.
fn copy_range(b: &Vec<u8>, i: usize, j: usize) -> (r: Vec<u8>)
    requires
        i <= j <= b.len(),
    ensures
        r@ == b@.subrange(i as int, j as int),
{
    let mut out: Vec<u8> = Vec::new();
    proof {
        assert(b@.subrange(i as int, i as int) =~= Seq::<u8>::empty());
    }
    let mut k: usize = i;
    while k < j
        invariant
            i <= k <= j <= b.len(),
            out@ == b@.subrange(i as int, k as int),
        decreases j - k,
    {
        proof {
            assert(b@.subrange(i as int, k as int + 1) =~= b@.subrange(i as int, k as int).push(
                b@[k as int],
            ));
        }
        out.push(b[k]);
        k = k + 1;
    }
    out
}

/// Relies on `String::from_utf8`: it succeeds exactly on valid UTF-8
/// input, and the characters of the returned string are the UTF-8
/// decoding of the input bytes.
#[verifier::external_body]
fn string_from_utf8(v: Vec<u8>) -> (r: Option<String>)
    ensures
        r is Some <==> valid_utf8(v@),
        r matches Some(s) ==> s@ == decode_utf8(v@),
{
    String::from_utf8(v).ok()
}

fn read_str(b: &Vec<u8>, pos: usize) -> (r: Option<(String, usize)>)
    requires
        pos <= b.len(),
    ensures
        match r {
            Some(sp) => pos <= sp.1 <= b.len() && dec_str(b@.skip(pos as int)) == Some(
                (sp.0@, b@.skip(sp.1 as int)),
            ),
            None => dec_str(b@.skip(pos as int)) is None,
        },
{
    let (n, p1) = match read_word(b, pos) {
        None => {
            return None;
        },
        Some(x) => x,
    };
    let rem = b.len() - p1;
    if n > rem as u128 {
        proof {
            assert(b@.skip(p1 as int).len() == rem);
        }
        return None;
    }
    let m = n as usize;
    let bytes = copy_range(b, p1, p1 + m);
    proof {
        assert(b@.skip(p1 as int).take(n as int) =~= b@.subrange(p1 as int, p1 + m as int));
        assert(b@.skip(p1 as int).skip(n as int) =~= b@.skip(p1 + m as int));
    }
    match string_from_utf8(bytes) {
        Some(s) => Some((s, p1 + m)),
        None => None,
    }
}

/// If a run of `n` strings decodes, it takes at least one word each.
proof fn lemma_dec_strs_min_len(s: Seq<u8>, n: nat)
    requires
        dec_strs(s, n) is Some,
    ensures
        16 * n <= s.len(),
    decreases n,
{
    if n > 0 {
        let (t, r) = dec_str(s)->0;
        assert(r.len() + 16 <= s.len());
        lemma_dec_strs_min_len(r, (n - 1) as nat);
    }
}

fn read_str_vec(b: &Vec<u8>, pos: usize) -> (r: Option<(Vec<String>, usize)>)
    requires
        pos <= b.len(),
    ensures
        match r {
            Some(vp) => pos <= vp.1 <= b.len() && dec_str_list(b@.skip(pos as int)) == Some(
                (vp.0.deep_view(), b@.skip(vp.1 as int)),
            ),
            None => dec_str_list(b@.skip(pos as int)) is None,
        },
{
    let (n, p1) = match read_word(b, pos) {
        None => {
            return None;
        },
        Some(x) => x,
    };
    let rem = b.len() - p1;
    let ghost s1 = b@.skip(p1 as int);
    if n > (rem as u128) / 16 {
        proof {
            if dec_strs(s1, n as nat) is Some {
                lemma_dec_strs_min_len(s1, n as nat);
                assert(16 * (n as nat) <= rem);
                assert(n <= (rem as u128) / 16) by (nonlinear_arith)
                    requires
                        16 * (n as nat) <= rem as nat,
                        n as nat == n as u128,
                        rem as nat == rem as u128,
                ;
            }
        }
        return None;
    }
    let m = n as usize;
    let mut acc: Vec<String> = Vec::new();
    let mut p: usize = p1;
    let mut k: usize = 0;
    proof {
        assert(acc.deep_view() =~= Seq::<Seq<char>>::empty());
    }
    while k < m
        invariant
            k <= m,
            pos <= p <= b.len(),
            acc.deep_view().len() == k,
            s1 == b@.skip(p1 as int),
            dec_str_list(b@.skip(pos as int)) == dec_strs(s1, m as nat),
            match dec_strs(b@.skip(p as int), (m - k) as nat) {
                Some(tr) => dec_strs(s1, m as nat) == Some(
                    (acc.deep_view() + tr.0, tr.1),
                ),
                None => dec_strs(s1, m as nat) is None,
            },
        decreases m - k,
    {
        match read_str(b, p) {
            None => {
                proof {
                    assert(dec_strs(b@.skip(p as int), (m - k) as nat) is None);
                }
                return None;
            },
            Some((s, p2)) => {
                let ghost old_acc = acc.deep_view();
                let ghost tv = s@;
                acc.push(s);
                proof {
                    assert(acc.deep_view() =~= old_acc.push(tv));
                    if dec_strs(b@.skip(p2 as int), (m - k - 1) as nat) is Some {
                        let tr = dec_strs(b@.skip(p2 as int), (m - k - 1) as nat)->0;
                        assert(old_acc + (seq![tv] + tr.0) =~= old_acc.push(tv) + tr.0);
                    }
                }
                p = p2;
            },
        }
        k = k + 1;
    }
    proof {
        assert(dec_strs(b@.skip(p as int), 0) == Some(
            (Seq::<Seq<char>>::empty(), b@.skip(p as int)),
        ));
        assert(acc.deep_view() + Seq::<Seq<char>>::empty() =~= acc.deep_view());
    }
    Some((acc, p))
}

// --- one process record ---

/// Estimator bounds on the usage ratios; the shifted encoding needs
/// them, and every estimator result satisfies them.
pub open spec fn status_encodable(p: PidStatusV) -> bool {
    &&& -USAGE_BOUND <= p.user_cpu_usage.num <= USAGE_BOUND
    &&& -USAGE_BOUND <= p.user_cpu_usage.den <= USAGE_BOUND
    &&& -USAGE_BOUND <= p.sys_cpu_usage.num <= USAGE_BOUND
    &&& -USAGE_BOUND <= p.sys_cpu_usage.den <= USAGE_BOUND
}

/// A process record whose encoding decodes back to itself: bounded
/// usage ratios and lengths below one word. Every record built from
/// machine values satisfies the length bounds, since they are below
/// the address-space size already.
pub open spec fn status_wf(p: PidStatusV) -> bool {
    &&& status_encodable(p)
    &&& encode_utf8(p.name).len() < pow256(16)
    &&& encode_utf8(p.cmd_short).len() < pow256(16)
    &&& encode_utf8(p.state).len() < pow256(16)
    &&& p.cmd_long.len() < pow256(16)
    &&& forall|i: int|
        0 <= i < p.cmd_long.len() ==> encode_utf8(#[trigger] p.cmd_long[i]).len() < pow256(16)
}

/// One process record: every field in declaration order.
pub open spec fn enc_status(p: PidStatusV) -> Seq<u8> {
    enc_i32(p.ppid) + (enc_i32(p.euid) + (enc_str_list(p.cmd_long) + (enc_str(p.name) + (enc_str(
        p.cmd_short,
    ) + (enc_i32(p.tracerpid) + (enc_u32(p.fdsize) + (enc_str(p.state) + (enc_opt_u64(p.vmpeak)
        + (enc_opt_u64(p.vmsize) + (enc_i64(p.rss_pages) + (enc_i64(p.rss_bytes) + (enc_u64(
        p.rsslim_bytes,
    ) + (enc_opt_i32(p.processor_last_executed) + (enc_u64(p.utime) + (enc_u64(p.stime)
        + (enc_iusage(p.user_cpu_usage.num) + (enc_iusage(p.user_cpu_usage.den) + (enc_iusage(
        p.sys_cpu_usage.num,
    ) + enc_iusage(p.sys_cpu_usage.den)))))))))))))))))))
}

#[verifier::opaque]
pub open spec fn dec_status(s: Seq<u8>) -> Option<(PidStatusV, Seq<u8>)> {
    match dec_i32(s) {
        None => None,
        Some((ppid, s)) => match dec_i32(s) {
            None => None,
            Some((euid, s)) => match dec_str_list(s) {
                None => None,
                Some((cmd_long, s)) => match dec_str(s) {
                    None => None,
                    Some((name, s)) => match dec_str(s) {
                        None => None,
                        Some((cmd_short, s)) => match dec_i32(s) {
                            None => None,
                            Some((tracerpid, s)) => match dec_u32(s) {
                                None => None,
                                Some((fdsize, s)) => match dec_str(s) {
                                    None => None,
                                    Some((state, s)) => match dec_opt_u64(s) {
                                        None => None,
                                        Some((vmpeak, s)) => match dec_opt_u64(s) {
                                            None => None,
                                            Some((vmsize, s)) => match dec_i64(s) {
                                                None => None,
                                                Some((rss_pages, s)) => match dec_i64(s) {
                                                    None => None,
                                                    Some((rss_bytes, s)) => match dec_u64(s) {
                                                        None => None,
                                                        Some((rsslim_bytes, s)) => match dec_opt_i32(
                                                            s,
                                                        ) {
                                                            None => None,
                                                            Some((processor, s)) => match dec_u64(
                                                                s,
                                                            ) {
                                                                None => None,
                                                                Some((utime, s)) => match dec_u64(
                                                                    s,
                                                                ) {
                                                                    None => None,
                                                                    Some((stime, s)) => match dec_iusage(
                                                                        s,
                                                                    ) {
                                                                        None => None,
                                                                        Some((unum, s)) => match dec_iusage(
                                                                            s,
                                                                        ) {
                                                                            None => None,
                                                                            Some((uden, s)) => match dec_iusage(
                                                                                s,
                                                                            ) {
                                                                                None => None,
                                                                                Some(
                                                                                    (snum, s),
                                                                                ) => match dec_iusage(
                                                                                    s,
                                                                                ) {
                                                                                    None => None,
                                                                                    Some(
                                                                                        (sden, s),
                                                                                    ) => Some(
                                                                                        (
                                                                                            PidStatusV {
                                                                                                ppid,
                                                                                                euid,
                                                                                                cmd_long,
                                                                                                name,
                                                                                                cmd_short,
                                                                                                tracerpid,
                                                                                                fdsize,
                                                                                                state,
                                                                                                vmpeak,
                                                                                                vmsize,
                                                                                                rss_pages,
                                                                                                rss_bytes,
                                                                                                rsslim_bytes,
                                                                                                processor_last_executed:
                                                                                                    processor,
                                                                                                utime,
                                                                                                stime,
                                                                                                user_cpu_usage:
                                                                                                    CpuUsage {
                                                                                                    num: unum,
                                                                                                    den: uden,
                                                                                                },
                                                                                                sys_cpu_usage:
                                                                                                    CpuUsage {
                                                                                                    num: snum,
                                                                                                    den: sden,
                                                                                                },
                                                                                            },
                                                                                            s,
                                                                                        ),
                                                                                    ),
                                                                                },
                                                                            },
                                                                        },
                                                                    },
                                                                },
                                                            },
                                                        },
                                                    },
                                                },
                                            },
                                        },
                                    },
                                },
                            },
                        },
                    },
                },
            },
        },
    }
}

pub proof fn lemma_status_round_trip(p: PidStatusV, rest: Seq<u8>)
    requires
        status_wf(p),
    ensures
        dec_status(enc_status(p) + rest) == Some((p, rest)),
{
    reveal(dec_status);
    let e1 = enc_i32(p.ppid);
    let e2 = enc_i32(p.euid);
    let e3 = enc_str_list(p.cmd_long);
    let e4 = enc_str(p.name);
    let e5 = enc_str(p.cmd_short);
    let e6 = enc_i32(p.tracerpid);
    let e7 = enc_u32(p.fdsize);
    let e8 = enc_str(p.state);
    let e9 = enc_opt_u64(p.vmpeak);
    let e10 = enc_opt_u64(p.vmsize);
    let e11 = enc_i64(p.rss_pages);
    let e12 = enc_i64(p.rss_bytes);
    let e13 = enc_u64(p.rsslim_bytes);
    let e14 = enc_opt_i32(p.processor_last_executed);
    let e15 = enc_u64(p.utime);
    let e16 = enc_u64(p.stime);
    let e17 = enc_iusage(p.user_cpu_usage.num);
    let e18 = enc_iusage(p.user_cpu_usage.den);
    let e19 = enc_iusage(p.sys_cpu_usage.num);
    let e20 = enc_iusage(p.sys_cpu_usage.den);
    let t20 = e20;
    let t19 = e19 + t20;
    let t18 = e18 + t19;
    let t17 = e17 + t18;
    let t16 = e16 + t17;
    let t15 = e15 + t16;
    let t14 = e14 + t15;
    let t13 = e13 + t14;
    let t12 = e12 + t13;
    let t11 = e11 + t12;
    let t10 = e10 + t11;
    let t9 = e9 + t10;
    let t8 = e8 + t9;
    let t7 = e7 + t8;
    let t6 = e6 + t7;
    let t5 = e5 + t6;
    let t4 = e4 + t5;
    let t3 = e3 + t4;
    let t2 = e2 + t3;
    let t1 = e1 + t2;
    assert(enc_status(p) == t1);
    lemma_concat_assoc(e1, t2, rest);
    lemma_i32_round_trip(p.ppid, t2 + rest);
    lemma_concat_assoc(e2, t3, rest);
    lemma_i32_round_trip(p.euid, t3 + rest);
    lemma_concat_assoc(e3, t4, rest);
    lemma_str_list_round_trip(p.cmd_long, t4 + rest);
    lemma_concat_assoc(e4, t5, rest);
    lemma_str_round_trip(p.name, t5 + rest);
    lemma_concat_assoc(e5, t6, rest);
    lemma_str_round_trip(p.cmd_short, t6 + rest);
    lemma_concat_assoc(e6, t7, rest);
    lemma_i32_round_trip(p.tracerpid, t7 + rest);
    lemma_concat_assoc(e7, t8, rest);
    lemma_u32_round_trip(p.fdsize, t8 + rest);
    lemma_concat_assoc(e8, t9, rest);
    lemma_str_round_trip(p.state, t9 + rest);
    lemma_concat_assoc(e9, t10, rest);
    lemma_opt_u64_round_trip(p.vmpeak, t10 + rest);
    lemma_concat_assoc(e10, t11, rest);
    lemma_opt_u64_round_trip(p.vmsize, t11 + rest);
    lemma_concat_assoc(e11, t12, rest);
    lemma_i64_round_trip(p.rss_pages, t12 + rest);
    lemma_concat_assoc(e12, t13, rest);
    lemma_i64_round_trip(p.rss_bytes, t13 + rest);
    lemma_concat_assoc(e13, t14, rest);
    lemma_u64_round_trip(p.rsslim_bytes, t14 + rest);
    lemma_concat_assoc(e14, t15, rest);
    lemma_opt_i32_round_trip(p.processor_last_executed, t15 + rest);
    lemma_concat_assoc(e15, t16, rest);
    lemma_u64_round_trip(p.utime, t16 + rest);
    lemma_concat_assoc(e16, t17, rest);
    lemma_u64_round_trip(p.stime, t17 + rest);
    lemma_concat_assoc(e17, t18, rest);
    lemma_iusage_round_trip(p.user_cpu_usage.num, t18 + rest);
    lemma_concat_assoc(e18, t19, rest);
    lemma_iusage_round_trip(p.user_cpu_usage.den, t19 + rest);
    lemma_concat_assoc(e19, t20, rest);
    lemma_iusage_round_trip(p.sys_cpu_usage.num, t20 + rest);
    lemma_iusage_round_trip(p.sys_cpu_usage.den, rest);
}

#[verifier::rlimit(100)]
fn write_status(out: &mut Vec<u8>, p: &PidStatus)
    requires
        status_encodable(p@),
    ensures
        final(out)@ == old(out)@ + enc_status(p@),
{
    let ghost u0 = out@;
    write_i32(out, p.ppid);
    let ghost u1 = out@;
    write_i32(out, p.euid);
    let ghost u2 = out@;
    write_str_vec(out, &p.cmd_long);
    let ghost u3 = out@;
    write_str(out, &p.name);
    let ghost u4 = out@;
    write_str(out, &p.cmd_short);
    let ghost u5 = out@;
    write_i32(out, p.tracerpid);
    let ghost u6 = out@;
    write_u32(out, p.fdsize);
    let ghost u7 = out@;
    write_str(out, &p.state);
    let ghost u8 = out@;
    write_opt_u64(out, p.vmpeak);
    let ghost u9 = out@;
    write_opt_u64(out, p.vmsize);
    let ghost u10 = out@;
    write_i64(out, p.rss_pages);
    let ghost u11 = out@;
    write_i64(out, p.rss_bytes);
    let ghost u12 = out@;
    write_u64(out, p.rsslim_bytes);
    let ghost u13 = out@;
    write_opt_i32(out, p.processor_last_executed);
    let ghost u14 = out@;
    write_u64(out, p.utime);
    let ghost u15 = out@;
    write_u64(out, p.stime);
    let ghost u16 = out@;
    write_iusage(out, p.user_cpu_usage.num);
    let ghost u17 = out@;
    write_iusage(out, p.user_cpu_usage.den);
    let ghost u18 = out@;
    write_iusage(out, p.sys_cpu_usage.num);
    let ghost u19 = out@;
    write_iusage(out, p.sys_cpu_usage.den);
    proof {
        let e1 = enc_i32(p@.ppid);
        let e2 = enc_i32(p@.euid);
        let e3 = enc_str_list(p@.cmd_long);
        let e4 = enc_str(p@.name);
        let e5 = enc_str(p@.cmd_short);
        let e6 = enc_i32(p@.tracerpid);
        let e7 = enc_u32(p@.fdsize);
        let e8 = enc_str(p@.state);
        let e9 = enc_opt_u64(p@.vmpeak);
        let e10 = enc_opt_u64(p@.vmsize);
        let e11 = enc_i64(p@.rss_pages);
        let e12 = enc_i64(p@.rss_bytes);
        let e13 = enc_u64(p@.rsslim_bytes);
        let e14 = enc_opt_i32(p@.processor_last_executed);
        let e15 = enc_u64(p@.utime);
        let e16 = enc_u64(p@.stime);
        let e17 = enc_iusage(p@.user_cpu_usage.num);
        let e18 = enc_iusage(p@.user_cpu_usage.den);
        let e19 = enc_iusage(p@.sys_cpu_usage.num);
        let e20 = enc_iusage(p@.sys_cpu_usage.den);
        let t20 = e20;
        let t19 = e19 + t20;
        let t18 = e18 + t19;
        let t17 = e17 + t18;
        let t16 = e16 + t17;
        let t15 = e15 + t16;
        let t14 = e14 + t15;
        let t13 = e13 + t14;
        let t12 = e12 + t13;
        let t11 = e11 + t12;
        let t10 = e10 + t11;
        let t9 = e9 + t10;
        let t8 = e8 + t9;
        let t7 = e7 + t8;
        let t6 = e6 + t7;
        let t5 = e5 + t6;
        let t4 = e4 + t5;
        let t3 = e3 + t4;
        let t2 = e2 + t3;
        let t1 = e1 + t2;
        assert(enc_status(p@) == t1);
        assert(final(out)@ == u19 + t20);
        lemma_concat_assoc(u18, e19, t20);
        assert(final(out)@ == u18 + t19);
        lemma_concat_assoc(u17, e18, t19);
        assert(final(out)@ == u17 + t18);
        lemma_concat_assoc(u16, e17, t18);
        assert(final(out)@ == u16 + t17);
        lemma_concat_assoc(u15, e16, t17);
        assert(final(out)@ == u15 + t16);
        lemma_concat_assoc(u14, e15, t16);
        assert(final(out)@ == u14 + t15);
        lemma_concat_assoc(u13, e14, t15);
        assert(final(out)@ == u13 + t14);
        lemma_concat_assoc(u12, e13, t14);
        assert(final(out)@ == u12 + t13);
        lemma_concat_assoc(u11, e12, t13);
        assert(final(out)@ == u11 + t12);
        lemma_concat_assoc(u10, e11, t12);
        assert(final(out)@ == u10 + t11);
        lemma_concat_assoc(u9, e10, t11);
        assert(final(out)@ == u9 + t10);
        lemma_concat_assoc(u8, e9, t10);
        assert(final(out)@ == u8 + t9);
        lemma_concat_assoc(u7, e8, t9);
        assert(final(out)@ == u7 + t8);
        lemma_concat_assoc(u6, e7, t8);
        assert(final(out)@ == u6 + t7);
        lemma_concat_assoc(u5, e6, t7);
        assert(final(out)@ == u5 + t6);
        lemma_concat_assoc(u4, e5, t6);
        assert(final(out)@ == u4 + t5);
        lemma_concat_assoc(u3, e4, t5);
        assert(final(out)@ == u3 + t4);
        lemma_concat_assoc(u2, e3, t4);
        assert(final(out)@ == u2 + t3);
        lemma_concat_assoc(u1, e2, t3);
        assert(final(out)@ == u1 + t2);
        lemma_concat_assoc(u0, e1, t2);
        assert(final(out)@ == u0 + t1);
    }
}

fn read_status(b: &Vec<u8>, pos: usize) -> (r: Option<(PidStatus, usize)>)
    requires
        pos <= b.len(),
    ensures
        match r {
            Some(sp) => pos <= sp.1 <= b.len() && dec_status(b@.skip(pos as int)) == Some(
                (sp.0@, b@.skip(sp.1 as int)),
            ),
            None => dec_status(b@.skip(pos as int)) is None,
        },
{
    proof {
        reveal(dec_status);
    }
    let (ppid, p) = match read_i32(b, pos) {
        None => {
            return None;
        },
        Some(x) => x,
    };
    let (euid, p) = match read_i32(b, p) {
        None => {
            return None;
        },
        Some(x) => x,
    };
    let (cmd_long, p) = match read_str_vec(b, p) {
        None => {
            return None;
        },
        Some(x) => x,
    };
    let (name, p) = match read_str(b, p) {
        None => {
            return None;
        },
        Some(x) => x,
    };
    let (cmd_short, p) = match read_str(b, p) {
        None => {
            return None;
        },
        Some(x) => x,
    };
    let (tracerpid, p) = match read_i32(b, p) {
        None => {
            return None;
        },
        Some(x) => x,
    };
    let (fdsize, p) = match read_u32(b, p) {
        None => {
            return None;
        },
        Some(x) => x,
    };
    let (state, p) = match read_str(b, p) {
        None => {
            return None;
        },
        Some(x) => x,
    };
    let (vmpeak, p) = match read_opt_u64(b, p) {
        None => {
            return None;
        },
        Some(x) => x,
    };
    let (vmsize, p) = match read_opt_u64(b, p) {
        None => {
            return None;
        },
        Some(x) => x,
    };
    let (rss_pages, p) = match read_i64(b, p) {
        None => {
            return None;
        },
        Some(x) => x,
    };
    let (rss_bytes, p) = match read_i64(b, p) {
        None => {
            return None;
        },
        Some(x) => x,
    };
    let (rsslim_bytes, p) = match read_u64(b, p) {
        None => {
            return None;
        },
        Some(x) => x,
    };
    let (processor, p) = match read_opt_i32(b, p) {
        None => {
            return None;
        },
        Some(x) => x,
    };
    let (utime, p) = match read_u64(b, p) {
        None => {
            return None;
        },
        Some(x) => x,
    };
    let (stime, p) = match read_u64(b, p) {
        None => {
            return None;
        },
        Some(x) => x,
    };
    let (unum, p) = match read_iusage(b, p) {
        None => {
            return None;
        },
        Some(x) => x,
    };
    let (uden, p) = match read_iusage(b, p) {
        None => {
            return None;
        },
        Some(x) => x,
    };
    let (snum, p) = match read_iusage(b, p) {
        None => {
            return None;
        },
        Some(x) => x,
    };
    let (sden, p) = match read_iusage(b, p) {
        None => {
            return None;
        },
        Some(x) => x,
    };
    let st = PidStatus {
        ppid,
        euid,
        cmd_long,
        name,
        cmd_short,
        tracerpid,
        fdsize,
        state,
        vmpeak,
        vmsize,
        rss_pages,
        rss_bytes,
        rsslim_bytes,
        processor_last_executed: processor,
        utime,
        stime,
        user_cpu_usage: CpuUsage { num: unum, den: uden },
        sys_cpu_usage: CpuUsage { num: snum, den: sden },
    };
    Some((st, p))
}

// --- the process map: element count, then (pid, record) pairs ---

pub open spec fn enc_entry(e: (i32, PidStatusV)) -> Seq<u8> {
    enc_i32(e.0) + enc_status(e.1)
}

pub open spec fn enc_entry_seq(l: Seq<(i32, PidStatusV)>) -> Seq<u8>
    decreases l.len(),
{
    if l.len() == 0 {
        Seq::empty()
    } else {
        enc_entry(l[0]) + enc_entry_seq(l.drop_first())
    }
}

pub open spec fn enc_entry_list(l: Seq<(i32, PidStatusV)>) -> Seq<u8> {
    enc_word(l.len()) + enc_entry_seq(l)
}

pub open spec fn dec_entry(s: Seq<u8>) -> Option<((i32, PidStatusV), Seq<u8>)> {
    match dec_i32(s) {
        None => None,
        Some((k, s)) => match dec_status(s) {
            None => None,
            Some((p, s)) => Some(((k, p), s)),
        },
    }
}

pub open spec fn dec_entries(s: Seq<u8>, n: nat) -> Option<(Seq<(i32, PidStatusV)>, Seq<u8>)>
    decreases n,
{
    if n == 0 {
        Some((Seq::empty(), s))
    } else {
        match dec_entry(s) {
            Some((e, r)) => match dec_entries(r, (n - 1) as nat) {
                Some((es, r2)) => Some((seq![e] + es, r2)),
                None => None,
            },
            None => None,
        }
    }
}

pub open spec fn dec_entry_list(s: Seq<u8>) -> Option<(Seq<(i32, PidStatusV)>, Seq<u8>)> {
    match dec_word(s) {
        Some((n, r)) => dec_entries(r, n as nat),
        None => None,
    }
}

pub proof fn lemma_enc_entry_seq_push(l: Seq<(i32, PidStatusV)>, e: (i32, PidStatusV))
    ensures
        enc_entry_seq(l.push(e)) == enc_entry_seq(l) + enc_entry(e),
    decreases l.len(),
{
    if l.len() == 0 {
        assert(l.push(e)[0] == e);
        assert(l.push(e).drop_first() =~= Seq::<(i32, PidStatusV)>::empty());
        assert(enc_entry_seq(Seq::<(i32, PidStatusV)>::empty()) == Seq::<u8>::empty());
        assert(enc_entry_seq(l.push(e)) =~= enc_entry_seq(l) + enc_entry(e));
    } else {
        assert(l.push(e)[0] == l[0]);
        assert(l.push(e).drop_first() =~= l.drop_first().push(e));
        lemma_enc_entry_seq_push(l.drop_first(), e);
        lemma_concat_assoc(enc_entry(l[0]), enc_entry_seq(l.drop_first()), enc_entry(e));
    }
}

pub proof fn lemma_entry_round_trip(e: (i32, PidStatusV), rest: Seq<u8>)
    requires
        status_wf(e.1),
    ensures
        dec_entry(enc_entry(e) + rest) == Some((e, rest)),
{
    lemma_concat_assoc(enc_i32(e.0), enc_status(e.1), rest);
    lemma_i32_round_trip(e.0, enc_status(e.1) + rest);
    lemma_status_round_trip(e.1, rest);
    assert((e.0, e.1) == e);
}

pub proof fn lemma_entries_round_trip(l: Seq<(i32, PidStatusV)>, rest: Seq<u8>)
    requires
        forall|i: int| 0 <= i < l.len() ==> status_wf((#[trigger] l[i]).1),
    ensures
        dec_entries(enc_entry_seq(l) + rest, l.len()) == Some((l, rest)),
    decreases l.len(),
{
    if l.len() == 0 {
        assert(enc_entry_seq(l) + rest =~= rest);
        assert(l =~= Seq::<(i32, PidStatusV)>::empty());
    } else {
        lemma_concat_assoc(enc_entry(l[0]), enc_entry_seq(l.drop_first()), rest);
        lemma_entry_round_trip(l[0], enc_entry_seq(l.drop_first()) + rest);
        lemma_entries_round_trip(l.drop_first(), rest);
        assert(seq![l[0]] + l.drop_first() =~= l);
    }
}

pub proof fn lemma_entry_list_round_trip(l: Seq<(i32, PidStatusV)>, rest: Seq<u8>)
    requires
        l.len() < pow256(16),
        forall|i: int| 0 <= i < l.len() ==> status_wf((#[trigger] l[i]).1),
    ensures
        dec_entry_list(enc_entry_list(l) + rest) == Some((l, rest)),
{
    lemma_pow256_16();
    lemma_concat_assoc(enc_word(l.len()), enc_entry_seq(l), rest);
    lemma_word_round_trip((l.len() as int) as u128, enc_entry_seq(l) + rest);
    lemma_entries_round_trip(l, rest);
}

proof fn lemma_dec_strs_shrink(s: Seq<u8>, n: nat)
    requires
        dec_strs(s, n) is Some,
    ensures
        (dec_strs(s, n)->0).1.len() <= s.len(),
    decreases n,
{
    if n > 0 {
        let (t, r) = dec_str(s)->0;
        lemma_dec_strs_shrink(r, (n - 1) as nat);
    }
}

/// A decoded record consumes at least one word of input.
proof fn lemma_dec_status_shrink(s: Seq<u8>)
    requires
        dec_status(s) is Some,
    ensures
        (dec_status(s)->0).1.len() + 16 <= s.len(),
{
    reveal(dec_status);
    let (a1, s1) = dec_i32(s)->0;
    let (a2, s2) = dec_i32(s1)->0;
    let (a3, s3) = dec_str_list(s2)->0;
    let (n3, r3) = dec_word(s2)->0;
    lemma_dec_strs_shrink(r3, n3 as nat);
    let (a4, s4) = dec_str(s3)->0;
    let (a5, s5) = dec_str(s4)->0;
    let (a6, s6) = dec_i32(s5)->0;
    let (a7, s7) = dec_u32(s6)->0;
    let (a8, s8) = dec_str(s7)->0;
    let (a9, s9) = dec_opt_u64(s8)->0;
    let (a10, s10) = dec_opt_u64(s9)->0;
    let (a11, s11) = dec_i64(s10)->0;
    let (a12, s12) = dec_i64(s11)->0;
    let (a13, s13) = dec_u64(s12)->0;
    let (a14, s14) = dec_opt_i32(s13)->0;
    let (a15, s15) = dec_u64(s14)->0;
    let (a16, s16) = dec_u64(s15)->0;
    let (a17, s17) = dec_iusage(s16)->0;
    let (a18, s18) = dec_iusage(s17)->0;
    let (a19, s19) = dec_iusage(s18)->0;
    let (a20, s20) = dec_iusage(s19)->0;
    assert(s20.len() <= s1.len());
}

proof fn lemma_dec_entries_min_len(s: Seq<u8>, n: nat)
    requires
        dec_entries(s, n) is Some,
    ensures
        16 * n <= s.len(),
    decreases n,
{
    if n > 0 {
        let (e, r) = dec_entry(s)->0;
        let (k, s1) = dec_i32(s)->0;
        lemma_dec_status_shrink(s1);
        lemma_dec_entries_min_len(r, (n - 1) as nat);
    }
}

fn write_entries(out: &mut Vec<u8>, l: &Vec<(i32, PidStatus)>)
    requires
        forall|i: int|
            0 <= i < l@.len() ==> status_encodable((#[trigger] l@[i]).1@),
    ensures
        final(out)@ == old(out)@ + enc_entry_list(l.deep_view()),
{
    let ghost base = out@;
    let ghost dv = l.deep_view();
    write_word(out, l.len() as u128);
    let ghost w = enc_word(dv.len());
    let mut i: usize = 0;
    proof {
        assert(dv.take(0) =~= Seq::<(i32, PidStatusV)>::empty());
        assert(enc_entry_seq(Seq::<(i32, PidStatusV)>::empty()) == Seq::<u8>::empty());
        assert((base + w) + Seq::<u8>::empty() =~= base + w);
    }
    while i < l.len()
        invariant
            i <= l.len(),
            dv == l.deep_view(),
            dv.len() == l@.len(),
            forall|j: int|
                0 <= j < l@.len() ==> status_encodable((#[trigger] l@[j]).1@),
            out@ == (base + w) + enc_entry_seq(dv.take(i as int)),
        decreases l.len() - i,
    {
        proof {
            assert(dv[i as int] == (l@[i as int].0, l@[i as int].1@));
        }
        let ghost mid = out@;
        write_i32(out, l[i].0);
        write_status(out, &l[i].1);
        proof {
            lemma_concat_assoc(mid, enc_i32(dv[i as int].0), enc_status(dv[i as int].1));
            lemma_enc_entry_seq_push(dv.take(i as int), dv[i as int]);
            assert(dv.take(i as int + 1) =~= dv.take(i as int).push(dv[i as int]));
            lemma_concat_assoc(base + w, enc_entry_seq(dv.take(i as int)), enc_entry(dv[i as int]));
        }
        i = i + 1;
    }
    proof {
        assert(dv.take(l@.len() as int) =~= dv);
        lemma_concat_assoc(base, w, enc_entry_seq(dv));
    }
}

#[verifier::rlimit(100)]
fn read_entries(b: &Vec<u8>, pos: usize) -> (r: Option<(Vec<(i32, PidStatus)>, usize)>)
    requires
        pos <= b.len(),
    ensures
        match r {
            Some(vp) => pos <= vp.1 <= b.len() && dec_entry_list(b@.skip(pos as int)) == Some(
                (vp.0.deep_view(), b@.skip(vp.1 as int)),
            ),
            None => dec_entry_list(b@.skip(pos as int)) is None,
        },
{
    let (n, p1) = match read_word(b, pos) {
        None => {
            return None;
        },
        Some(x) => x,
    };
    let rem = b.len() - p1;
    let ghost s1 = b@.skip(p1 as int);
    if n > (rem as u128) / 16 {
        proof {
            if dec_entries(s1, n as nat) is Some {
                lemma_dec_entries_min_len(s1, n as nat);
                assert(16 * (n as nat) <= rem);
                assert(n <= (rem as u128) / 16) by (nonlinear_arith)
                    requires
                        16 * (n as nat) <= rem as nat,
                        n as nat == n as u128,
                        rem as nat == rem as u128,
                ;
            }
        }
        return None;
    }
    let m = n as usize;
    let mut acc: Vec<(i32, PidStatus)> = Vec::new();
    let mut p: usize = p1;
    let mut k: usize = 0;
    proof {
        assert(acc.deep_view() =~= Seq::<(i32, PidStatusV)>::empty());
    }
    while k < m
        invariant
            k <= m,
            pos <= p <= b.len(),
            acc.deep_view().len() == k,
            s1 == b@.skip(p1 as int),
            dec_entry_list(b@.skip(pos as int)) == dec_entries(s1, m as nat),
            match dec_entries(b@.skip(p as int), (m - k) as nat) {
                Some(tr) => dec_entries(s1, m as nat) == Some(
                    (acc.deep_view() + tr.0, tr.1),
                ),
                None => dec_entries(s1, m as nat) is None,
            },
        decreases m - k,
    {
        let (key, p2) = match read_i32(b, p) {
            None => {
                proof {
                    assert(dec_entry(b@.skip(p as int)) is None);
                    assert(dec_entries(b@.skip(p as int), (m - k) as nat) is None);
                }
                return None;
            },
            Some(x) => x,
        };
        let (st, p3) = match read_status(b, p2) {
            None => {
                proof {
                    assert(dec_entry(b@.skip(p as int)) is None);
                    assert(dec_entries(b@.skip(p as int), (m - k) as nat) is None);
                }
                return None;
            },
            Some(x) => x,
        };
        let ghost old_acc = acc.deep_view();
        let ghost ev = (key, st@);
        acc.push((key, st));
        proof {
            assert(acc.deep_view() =~= old_acc.push(ev));
            assert(dec_entry(b@.skip(p as int)) == Some((ev, b@.skip(p3 as int))));
            if dec_entries(b@.skip(p3 as int), (m - k - 1) as nat) is Some {
                let tr = dec_entries(b@.skip(p3 as int), (m - k - 1) as nat)->0;
                assert(old_acc + (seq![ev] + tr.0) =~= old_acc.push(ev) + tr.0);
            }
        }
        p = p3;
        k = k + 1;
    }
    proof {
        assert(dec_entries(b@.skip(p as int), 0) == Some(
            (Seq::<(i32, PidStatusV)>::empty(), b@.skip(p as int)),
        ));
        assert(acc.deep_view() + Seq::<(i32, PidStatusV)>::empty() =~= acc.deep_view());
    }
    Some((acc, p))
}

// --- the snapshot ---

/// The usage bounds that the encoder needs of a snapshot; the estimator
/// guarantees them for every record it derives.
pub open spec fn snapshot_encodable(m: EncoDecodeV) -> bool {
    forall|i: int|
        0 <= i < m.pid_map_list.len() ==> status_encodable((#[trigger] m.pid_map_list[i]).1)
}

/// A snapshot value whose encoding decodes back to itself: bounded
/// usage ratios and lengths below one word.
pub open spec fn snapshot_wf(m: EncoDecodeV) -> bool {
    &&& encode_utf8(m.hostname).len() < pow256(16)
    &&& m.pid_map_list.len() < pow256(16)
    &&& forall|i: int|
        0 <= i < m.pid_map_list.len() ==> status_wf((#[trigger] m.pid_map_list[i]).1)
}

/// The canonical snapshot encoding: hostname, process map, capture
/// time, delay, aggregate CPU time, in that order.
pub open spec fn enc_snapshot(m: EncoDecodeV) -> Seq<u8> {
    enc_str(m.hostname) + (enc_entry_list(m.pid_map_list) + (enc_u64(m.time_epoch) + (enc_u64(
        m.delay,
    ) + enc_u64(m.total_cpu_time))))
}

/// Decoding accepts exactly the canonical encodings, with nothing
/// following them.
pub open spec fn dec_snapshot(s: Seq<u8>) -> Option<EncoDecodeV> {
    match dec_str(s) {
        None => None,
        Some((hostname, s)) => match dec_entry_list(s) {
            None => None,
            Some((pid_map_list, s)) => match dec_u64(s) {
                None => None,
                Some((time_epoch, s)) => match dec_u64(s) {
                    None => None,
                    Some((delay, s)) => match dec_u64(s) {
                        None => None,
                        Some((total_cpu_time, s)) => if s.len() == 0 {
                            Some(
                                EncoDecodeV {
                                    hostname,
                                    pid_map_list,
                                    time_epoch,
                                    delay,
                                    total_cpu_time,
                                },
                            )
                        } else {
                            None
                        },
                    },
                },
            },
        },
    }
}

/// Round trip: decoding the encoding of any well-formed snapshot value
/// yields that value again, equal in every field.
pub proof fn lemma_snapshot_round_trip(m: EncoDecodeV)
    requires
        snapshot_wf(m),
    ensures
        dec_snapshot(enc_snapshot(m)) == Some(m),
{
    let e1 = enc_str(m.hostname);
    let e2 = enc_entry_list(m.pid_map_list);
    let e3 = enc_u64(m.time_epoch);
    let e4 = enc_u64(m.delay);
    let e5 = enc_u64(m.total_cpu_time);
    let t5 = e5;
    let t4 = e4 + t5;
    let t3 = e3 + t4;
    let t2 = e2 + t3;
    let t1 = e1 + t2;
    assert(enc_snapshot(m) == t1);
    lemma_str_round_trip(m.hostname, t2);
    lemma_entry_list_round_trip(m.pid_map_list, t3);
    lemma_u64_round_trip(m.time_epoch, t4);
    lemma_u64_round_trip(m.delay, t5);
    assert(e5 + Seq::<u8>::empty() =~= e5);
    lemma_u64_round_trip(m.total_cpu_time, Seq::<u8>::empty());
}

/// Why a byte buffer was rejected by `decode`: it is not the canonical
/// encoding of any snapshot.
#[derive(Debug, PartialEq, Eq, Clone, Copy, Structural)]
pub enum DecodeError {
    /// Truncated, malformed, or trailing input.
    Malformed,
}

impl EncoDecode {
    /// Serializes this snapshot into the canonical binary encoding.
    pub fn encode(&self) -> (out: Vec<u8>)
        requires
            snapshot_encodable(self@),
        ensures
            out@ == enc_snapshot(self@),
    {
        proof {
            assert forall|i: int| 0 <= i < self.pid_map_list@.len() implies status_encodable(
                (#[trigger] self.pid_map_list@[i]).1@,
            ) by {
                assert(self@.pid_map_list[i] == (self.pid_map_list@[i].0, self.pid_map_list@[i].1@));
            }
        }
        let mut out: Vec<u8> = Vec::new();
        let ghost u0 = out@;
        write_str(&mut out, &self.hostname);
        let ghost u1 = out@;
        write_entries(&mut out, &self.pid_map_list);
        let ghost u2 = out@;
        write_u64(&mut out, self.time_epoch);
        let ghost u3 = out@;
        write_u64(&mut out, self.delay);
        let ghost u4 = out@;
        write_u64(&mut out, self.total_cpu_time);
        proof {
            let e1 = enc_str(self@.hostname);
            let e2 = enc_entry_list(self@.pid_map_list);
            let e3 = enc_u64(self@.time_epoch);
            let e4 = enc_u64(self@.delay);
            let e5 = enc_u64(self@.total_cpu_time);
            let t5 = e5;
            let t4 = e4 + t5;
            let t3 = e3 + t4;
            let t2 = e2 + t3;
            let t1 = e1 + t2;
            assert(enc_snapshot(self@) == t1);
            assert(out@ == u4 + t5);
            lemma_concat_assoc(u3, e4, t5);
            assert(out@ == u3 + t4);
            lemma_concat_assoc(u2, e3, t4);
            assert(out@ == u2 + t3);
            lemma_concat_assoc(u1, e2, t3);
            assert(out@ == u1 + t2);
            lemma_concat_assoc(u0, e1, t2);
            assert(out@ == u0 + t1);
            assert(u0 + t1 =~= t1);
        }
        out
    }

    /// Serializes this snapshot if its usage ratios lie within the
    /// estimator's bounds, which every snapshot the scan produces does;
    /// returns `None` for an out-of-bounds hand-built value.
    pub fn encode_checked(&self) -> (r: Option<Vec<u8>>)
        ensures
            match r {
                Some(out) => snapshot_encodable(self@) && out@ == enc_snapshot(self@),
                None => !snapshot_encodable(self@),
            },
    {
        let mut i: usize = 0;
        while i < self.pid_map_list.len()
            invariant
                i <= self.pid_map_list@.len(),
                forall|j: int|
                    0 <= j < i ==> status_encodable((#[trigger] self.pid_map_list@[j]).1@),
            decreases self.pid_map_list@.len() - i,
        {
            let u = &self.pid_map_list[i].1.user_cpu_usage;
            let s = &self.pid_map_list[i].1.sys_cpu_usage;
            if u.num < -USAGE_BOUND || u.num > USAGE_BOUND || u.den < -USAGE_BOUND || u.den
                > USAGE_BOUND || s.num < -USAGE_BOUND || s.num > USAGE_BOUND || s.den
                < -USAGE_BOUND || s.den > USAGE_BOUND {
                proof {
                    assert(!status_encodable(self.pid_map_list@[i as int].1@));
                    assert(self@.pid_map_list[i as int] == (
                        self.pid_map_list@[i as int].0,
                        self.pid_map_list@[i as int].1@,
                    ));
                    assert(!snapshot_encodable(self@));
                }
                return None;
            }
            i = i + 1;
        }
        proof {
            assert forall|j: int| 0 <= j < self@.pid_map_list.len() implies status_encodable(
                (#[trigger] self@.pid_map_list[j]).1,
            ) by {
                assert(self@.pid_map_list[j] == (self.pid_map_list@[j].0, self.pid_map_list@[j].1@));
            }
        }
        Some(self.encode())
    }

    /// Decodes the canonical binary encoding; rejects anything that is
    /// not exactly the encoding of one snapshot.
    pub fn decode(data: &Vec<u8>) -> (r: Result<EncoDecode, DecodeError>)
        ensures
            match r {
                Ok(x) => dec_snapshot(data@) == Some(x@),
                Err(_) => dec_snapshot(data@) is None,
            },
    {
        proof {
            assert(data@.skip(0) =~= data@);
        }
        let (hostname, p) = match read_str(data, 0) {
            None => {
                return Err(DecodeError::Malformed);
            },
            Some(x) => x,
        };
        let (pid_map_list, p) = match read_entries(data, p) {
            None => {
                return Err(DecodeError::Malformed);
            },
            Some(x) => x,
        };
        let (time_epoch, p) = match read_u64(data, p) {
            None => {
                return Err(DecodeError::Malformed);
            },
            Some(x) => x,
        };
        let (delay, p) = match read_u64(data, p) {
            None => {
                return Err(DecodeError::Malformed);
            },
            Some(x) => x,
        };
        let (total_cpu_time, p) = match read_u64(data, p) {
            None => {
                return Err(DecodeError::Malformed);
            },
            Some(x) => x,
        };
        if p != data.len() {
            proof {
                assert(data@.skip(p as int).len() != 0);
            }
            return Err(DecodeError::Malformed);
        }
        proof {
            assert(data@.skip(p as int).len() == 0);
        }
        Ok(
            EncoDecode {
                hostname,
                pid_map_list,
                time_epoch,
                delay,
                total_cpu_time,
            },
        )
    }
}

} // verus!
