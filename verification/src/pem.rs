//! Decoding of the base64 body of a PEM certificate into DER.
use vstd::prelude::*;
use crate::status::{EfiStatus, EFI_BUFFER_TOO_SMALL};

verus! {

/// The value of a base64 digit of the standard alphabet.
pub open spec fn spec_b64_value(ch: u8) -> Option<u8> {
    if 0x41 <= ch <= 0x5a {
        Some((ch - 0x41) as u8)
    } else if 0x61 <= ch <= 0x7a {
        Some((ch - 0x61 + 26) as u8)
    } else if 0x30 <= ch <= 0x39 {
        Some((ch - 0x30 + 52) as u8)
    } else if ch == 0x2b {
        Some(62u8)
    } else if ch == 0x2f {
        Some(63u8)
    } else {
        None
    }
}

/// The value of the base64 digit `ch`, if it is one.
pub fn b64_value(ch: u8) -> (r: Option<u8>)
    ensures
        r == spec_b64_value(ch),
{
    if ch >= 0x41 && ch <= 0x5a {
        Some(ch - 0x41)
    } else if ch >= 0x61 && ch <= 0x7a {
        Some(ch - 0x61 + 26)
    } else if ch >= 0x30 && ch <= 0x39 {
        Some(ch - 0x30 + 52)
    } else if ch == 0x2b {
        Some(62)
    } else if ch == 0x2f {
        Some(63)
    } else {
        None
    }
}

/// The digit values of the base64 digits in `s`, other bytes skipped.
pub open spec fn b64_values(s: Seq<u8>) -> Seq<u8>
    decreases s.len(),
{
    if s.len() == 0 {
        Seq::empty()
    } else {
        b64_values(s.drop_last()) + match spec_b64_value(s.last()) {
            Some(v) => seq![v],
            None => Seq::empty(),
        }
    }
}

/// The bytes that base64 digit values stand for: each group of four
/// values gives three bytes, a final group of two or three values one or
/// two bytes, and a single trailing value none.
pub open spec fn b64_decode(v: Seq<u8>) -> Seq<u8>
    decreases v.len(),
{
    if v.len() < 2 {
        Seq::empty()
    } else if v.len() == 2 {
        seq![(v[0] * 4 + v[1] / 16) as u8]
    } else if v.len() == 3 {
        seq![(v[0] * 4 + v[1] / 16) as u8, ((v[1] % 16) * 16 + v[2] / 4) as u8]
    } else {
        seq![
            (v[0] * 4 + v[1] / 16) as u8,
            ((v[1] % 16) * 16 + v[2] / 4) as u8,
            ((v[2] % 4) * 64 + v[3]) as u8,
        ] + b64_decode(v.skip(4))
    }
}

/// A line feed at `i`, and none before it.
pub open spec fn first_line_end(s: Seq<u8>, i: int) -> bool {
    0 <= i < s.len() && s[i] == 0x0a && forall|j: int| 0 <= j < i ==> s[j] != 0x0a
}

/// A `-` or `=` at `i` of `s`, and none before it.
pub open spec fn first_body_stop(s: Seq<u8>, i: int) -> bool {
    0 <= i < s.len() && (s[i] == 0x2d || s[i] == 0x3d) && forall|j: int|
        0 <= j < i ==> s[j] != 0x2d && s[j] != 0x3d
}

/// The base64 body of a PEM text: what follows its first line, up to the
/// first `-` (the end marker) or `=` (padding).
pub open spec fn pem_body(pem: Seq<u8>) -> Seq<u8> {
    if exists|i: int| first_line_end(pem, i) {
        let i = choose|i: int| first_line_end(pem, i);
        let rest = pem.skip(i + 1);
        if exists|k: int| first_body_stop(rest, k) {
            rest.take(choose|k: int| first_body_stop(rest, k))
        } else {
            rest
        }
    } else {
        Seq::empty()
    }
}

/// The DER bytes that a PEM text holds.
pub open spec fn pem_der(pem: Seq<u8>) -> Seq<u8> {
    b64_decode(b64_values(pem_body(pem)))
}

/// What one more digit value `x` appends to the decoding of `v`.
pub open spec fn b64_step(v: Seq<u8>, x: u8) -> Seq<u8> {
    if v.len() % 4 == 0 {
        Seq::empty()
    } else if v.len() % 4 == 1 {
        seq![(v.last() * 4 + x / 16) as u8]
    } else if v.len() % 4 == 2 {
        seq![((v.last() % 16) * 16 + x / 4) as u8]
    } else {
        seq![((v.last() % 4) * 64 + x) as u8]
    }
}

proof fn lemma_b64_decode_push(v: Seq<u8>, x: u8)
    ensures
        b64_decode(v.push(x)) == b64_decode(v) + b64_step(v, x),
    decreases v.len(),
{
    if v.len() >= 4 {
        lemma_b64_decode_push(v.skip(4), x);
        assert(v.push(x).skip(4) =~= v.skip(4).push(x));
        if v.len() > 4 {
            assert(v.skip(4).last() == v.last());
        }
        assert(b64_decode(v.push(x)) =~= b64_decode(v) + b64_step(v, x));
    } else if v.len() == 3 {
        assert(v.push(x).skip(4) =~= Seq::<u8>::empty());
        assert(b64_decode(v.push(x).skip(4)) =~= Seq::<u8>::empty());
        assert(b64_decode(v.push(x)) =~= b64_decode(v) + b64_step(v, x));
    } else {
        assert(b64_decode(v.push(x)) =~= b64_decode(v) + b64_step(v, x));
    }
}

proof fn lemma_b64_decode_len(v: Seq<u8>)
    ensures
        b64_decode(v).len() == (v.len() / 4) * 3 + (if v.len() % 4 == 0 { 0int } else { v.len() % 4 - 1 }),
    decreases v.len(),
{
    if v.len() >= 4 {
        lemma_b64_decode_len(v.skip(4));
    }
}

proof fn lemma_b64_values_concat(a: Seq<u8>, b: Seq<u8>)
    ensures
        b64_values(a + b) == b64_values(a) + b64_values(b),
    decreases b.len(),
{
    if b.len() == 0 {
        assert(a + b =~= a);
        assert(b64_values(a) + b64_values(b) =~= b64_values(a));
    } else {
        lemma_b64_values_concat(a, b.drop_last());
        assert((a + b).drop_last() =~= a + b.drop_last());
        assert(b64_values(a + b) =~= b64_values(a) + b64_values(b));
    }
}

proof fn lemma_b64_decode_prefix(v: Seq<u8>, w: Seq<u8>)
    ensures
        b64_decode(v).len() <= b64_decode(v + w).len(),
        b64_decode(v + w).take(b64_decode(v).len() as int) == b64_decode(v),
    decreases w.len(),
{
    if w.len() == 0 {
        assert(v + w =~= v);
        assert(b64_decode(v).take(b64_decode(v).len() as int) =~= b64_decode(v));
    } else {
        lemma_b64_decode_prefix(v, w.drop_last());
        assert(v + w =~= (v + w.drop_last()).push(w.last()));
        lemma_b64_decode_push(v + w.drop_last(), w.last());
        assert(b64_decode(v + w).take(b64_decode(v).len() as int) =~= b64_decode(v));
    }
}

/// The accumulator holds the pending bits of the last digit values.
pub open spec fn accum_ok(v: Seq<u8>, accum: u32, bits: u32) -> bool {
    if v.len() % 4 == 0 {
        bits == 0
    } else if v.len() % 4 == 1 {
        bits == 6 && accum % 64 == v.last()
    } else if v.len() % 4 == 2 {
        bits == 4 && accum % 16 == v.last() % 16
    } else {
        bits == 2 && accum % 4 == v.last() % 4
    }
}

proof fn lemma_bits_from_0(a: u32, x: u32)
    requires
        x < 64,
    ensures
        ((a << 6u32) | x) % 64 == x,
{
    assert(((a << 6u32) | x) % 64 == x) by (bit_vector)
        requires x < 64;
}

proof fn lemma_bits_from_6(a: u32, p: u32, x: u32)
    requires
        x < 64,
        p < 64,
        a % 64 == p,
    ensures
        (((a << 6u32) | x) >> 4u32) & 0xff == p * 4 + x / 16,
        ((a << 6u32) | x) % 16 == x % 16,
{
    assert((((a << 6u32) | x) >> 4u32) & 0xff == p * 4 + x / 16) by (bit_vector)
        requires x < 64, p < 64, a % 64 == p;
    assert(((a << 6u32) | x) % 16 == x % 16) by (bit_vector)
        requires x < 64;
}

proof fn lemma_bits_from_4(a: u32, p: u32, x: u32)
    requires
        x < 64,
        p < 64,
        a % 16 == p % 16,
    ensures
        (((a << 6u32) | x) >> 2u32) & 0xff == (p % 16) * 16 + x / 4,
        ((a << 6u32) | x) % 4 == x % 4,
{
    assert((((a << 6u32) | x) >> 2u32) & 0xff == (p % 16) * 16 + x / 4) by (bit_vector)
        requires x < 64, p < 64, a % 16 == p % 16;
    assert(((a << 6u32) | x) % 4 == x % 4) by (bit_vector)
        requires x < 64;
}

proof fn lemma_bits_from_2(a: u32, p: u32, x: u32)
    requires
        x < 64,
        p < 64,
        a % 4 == p % 4,
    ensures
        (((a << 6u32) | x) >> 0u32) & 0xff == (p % 4) * 64 + x,
{
    assert((((a << 6u32) | x) >> 0u32) & 0xff == (p % 4) * 64 + x) by (bit_vector)
        requires x < 64, p < 64, a % 4 == p % 4;
}

/// The DER bytes gathered so far are a prefix of all of them: the body
/// read up to `i` is a prefix of the whole body.
proof fn lemma_partial_body(s: Seq<u8>, nl: int, i: int)
    requires
        first_line_end(s, nl),
        nl < i < s.len(),
        forall|j: int| nl + 1 <= j <= i ==> s[j] != 0x2d && s[j] != 0x3d,
    ensures
        b64_decode(b64_values(s.subrange(nl + 1, i + 1))).len() <= pem_der(s).len(),
        pem_der(s).take(b64_decode(b64_values(s.subrange(nl + 1, i + 1))).len() as int)
            == b64_decode(b64_values(s.subrange(nl + 1, i + 1))),
{
    let i0 = choose|i0: int| first_line_end(s, i0);
    assert(i0 == nl) by {
        if i0 < nl { assert(s[i0] != 0x0a); }
        if nl < i0 { assert(s[nl] != 0x0a); }
    }
    let rest = s.skip(nl + 1);
    let part = s.subrange(nl + 1, i + 1);
    let body = pem_body(s);
    assert(body.len() >= part.len() && body.take(part.len() as int) == part) by {
        if exists|k: int| first_body_stop(rest, k) {
            let k = choose|k: int| first_body_stop(rest, k);
            assert(k > i - nl - 1) by {
                if k <= i - nl - 1 {
                    assert(rest[k] == s[nl + 1 + k]);
                }
            }
            assert(body.take(part.len() as int) =~= part);
        } else {
            assert(body.take(part.len() as int) =~= part);
        }
    }
    let tail = body.skip(part.len() as int);
    assert(body =~= part + tail);
    lemma_b64_values_concat(part, tail);
    lemma_b64_decode_prefix(b64_values(part), b64_values(tail));
}

/// Decodes the base64 body of `pem` (see `pem_body`) into `out` and returns
/// the number of bytes written; fails with `EFI_BUFFER_TOO_SMALL` when the
/// bytes do not fit, after filling `out`.
pub fn pem_to_der(pem: &[u8], out: &mut [u8]) -> (r: Result<usize, EfiStatus>)
    ensures
        final(out)@.len() == old(out)@.len(),
        pem_der(pem@).len() <= old(out)@.len() ==> r == Ok::<usize, EfiStatus>(pem_der(pem@).len() as usize)
            && final(out)@ == pem_der(pem@) + old(out)@.skip(pem_der(pem@).len() as int),
        pem_der(pem@).len() > old(out)@.len() ==> r == Err::<usize, EfiStatus>(EfiStatus(EFI_BUFFER_TOO_SMALL))
            && final(out)@ == pem_der(pem@).take(old(out)@.len() as int),
{
    let ghost s = pem@;
    let mut in_body = false;
    let mut accum: u32 = 0;
    let mut bits: u32 = 0;
    let mut len: usize = 0;
    let mut i: usize = 0;
    let ghost mut nl: int = 0;
    let ghost mut vals: Seq<u8> = Seq::empty();
    while i < pem.len()
        invariant
            s == pem@,
            i <= s.len(),
            !in_body ==> forall|j: int| 0 <= j < i ==> s[j] != 0x0a,
            !in_body ==> vals == Seq::<u8>::empty(),
            in_body ==> first_line_end(s, nl) && nl < i,
            in_body ==> forall|j: int| nl + 1 <= j < i ==> s[j] != 0x2d && s[j] != 0x3d,
            in_body ==> vals == b64_values(s.subrange(nl + 1, i as int)),
            forall|k: int| 0 <= k < vals.len() ==> vals[k] < 64,
            accum_ok(vals, accum, bits),
            len == b64_decode(vals).len(),
            len <= out@.len(),
            out@.len() == old(out)@.len(),
            out@ == b64_decode(vals) + old(out)@.skip(len as int),
        ensures
            out@.len() == old(out)@.len(),
            out@ == pem_der(pem@) + old(out)@.skip(len as int),
            len == pem_der(pem@).len(),
        decreases s.len() - i,
    {
        let ch = pem[i];
        if !in_body {
            if ch == 0x0a {
                in_body = true;
                proof {
                    nl = i as int;
                    assert(s.subrange(nl + 1, nl + 1) =~= Seq::<u8>::empty());
                }
            }
            i += 1;
            continue;
        }
        if ch == 0x2d || ch == 0x3d {
            proof {
                let rest = s.skip(nl + 1);
                assert(first_body_stop(rest, i - nl - 1));
                let i0 = choose|i0: int| first_line_end(s, i0);
                assert(i0 == nl) by {
                    if i0 < nl { assert(s[i0] != 0x0a); }
                    if nl < i0 { assert(s[nl] != 0x0a); }
                }
                let k = choose|k: int| first_body_stop(rest, k);
                assert(k == i - nl - 1) by {
                    if k < i - nl - 1 { assert(rest[k] == s[nl + 1 + k]); }
                    if i - nl - 1 < k { assert(rest[i - nl - 1] == s[i as int]); }
                }
                assert(rest.take(k) =~= s.subrange(nl + 1, i as int));
                assert(pem_body(s) == s.subrange(nl + 1, i as int));
            }
            break;
        }
        let ghost before = vals;
        proof {
            assert(s.subrange(nl + 1, i + 1).drop_last() =~= s.subrange(nl + 1, i as int));
        }
        match b64_value(ch) {
            Some(value) => {
                proof {
                    lemma_b64_decode_push(vals, value);
                    vals = vals.push(value);
                    assert(vals =~= b64_values(s.subrange(nl + 1, i + 1)));
                    lemma_b64_decode_len(before);
                    lemma_b64_decode_len(vals);
                }
                let ghost a = accum;
                let ghost x = value as u32;
                accum = (accum << 6) | value as u32;
                bits += 6;
                proof {
                    if before.len() % 4 == 0 {
                        lemma_bits_from_0(a, x);
                        assert(vals.len() % 4 == 1);
                    } else if before.len() % 4 == 1 {
                        lemma_bits_from_6(a, before.last() as u32, x);
                    } else if before.len() % 4 == 2 {
                        lemma_bits_from_4(a, before.last() as u32, x);
                    } else {
                        lemma_bits_from_2(a, before.last() as u32, x);
                    }
                }
                if bits >= 8 {
                    bits -= 8;
                    if len >= out.len() {
                        proof {
                            lemma_partial_body(s, nl, i as int);
                            assert(out@ =~= b64_decode(before));
                            assert(pem_der(s).take(out@.len() as int) =~= b64_decode(vals).take(out@.len() as int));
                            assert(b64_decode(vals).take(out@.len() as int) =~= b64_decode(before));
                        }
                        return Err(EfiStatus(EFI_BUFFER_TOO_SMALL));
                    }
                    out[len] = ((accum >> bits) & 0xff) as u8;
                    len += 1;
                    assert(out@ =~= b64_decode(vals) + old(out)@.skip(len as int));
                } else {
                    assert(b64_decode(vals) =~= b64_decode(before));
                }
            },
            None => {
                assert(vals =~= b64_values(s.subrange(nl + 1, i + 1)));
            },
        }
        i += 1;
    }
    proof {
        if i == s.len() {
            if in_body {
                let rest = s.skip(nl + 1);
                let i0 = choose|i0: int| first_line_end(s, i0);
                assert(i0 == nl) by {
                    if i0 < nl { assert(s[i0] != 0x0a); }
                    if nl < i0 { assert(s[nl] != 0x0a); }
                }
                assert(!exists|k: int| first_body_stop(rest, k)) by {
                    if exists|k: int| first_body_stop(rest, k) {
                        let k = choose|k: int| first_body_stop(rest, k);
                        assert(rest[k] == s[nl + 1 + k]);
                    }
                }
                assert(rest =~= s.subrange(nl + 1, i as int));
            } else {
                assert(!exists|k: int| first_line_end(s, k));
            }
        }
    }
    Ok(len)
}

} // verus!
