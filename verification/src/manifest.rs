//! The boot manifest: a small JSON object naming the kernel URL, its size,
//! load address, entry point and architecture, read by key without a full
//! JSON parser.
use vstd::prelude::*;

verus! {

/// A space, carriage return, line feed or tab.
pub open spec fn is_json_ws(b: u8) -> bool {
    b == 0x20 || b == 0x0d || b == 0x0a || b == 0x09
}

/// The first position at or after `q` that does not hold whitespace.
pub open spec fn skip_ws_from(s: Seq<u8>, q: int) -> int
    decreases s.len() - q,
{
    if 0 <= q < s.len() && is_json_ws(s[q]) {
        skip_ws_from(s, q + 1)
    } else {
        q
    }
}

/// At `p` stands `"key"` followed, after optional whitespace, by a colon.
pub open spec fn key_hit(json: Seq<u8>, key: Seq<u8>, p: int) -> bool {
    let q = skip_ws_from(json, p + 2 + key.len());
    &&& 0 <= p
    &&& p + 1 + key.len() < json.len()
    &&& json[p] == 0x22
    &&& json.subrange(p + 1, p + 1 + key.len()) == key
    &&& json[p + 1 + key.len()] == 0x22
    &&& q < json.len()
    &&& json[q] == 0x3a
}

/// What follows the colon after the first `"key"` in `json`.
#[verifier::opaque]
pub open spec fn spec_find_key(json: Seq<u8>, key: Seq<u8>) -> Option<Seq<u8>> {
    if exists|p: int| key_hit(json, key, p) {
        let p = choose|p: int| key_hit(json, key, p) && forall|j: int| 0 <= j < p ==> !key_hit(json, key, j);
        Some(json.skip(skip_ws_from(json, p + 2 + key.len()) + 1))
    } else {
        None
    }
}

proof fn lemma_skip_ws_bounds(s: Seq<u8>, q: int)
    requires
        0 <= q,
    ensures
        q <= skip_ws_from(s, q),
        q <= s.len() ==> skip_ws_from(s, q) <= s.len(),
        forall|k: int| q <= k < skip_ws_from(s, q) ==> is_json_ws(#[trigger] s[k]),
        skip_ws_from(s, q) < s.len() ==> !is_json_ws(s[skip_ws_from(s, q)]),
    decreases s.len() - q,
{
    if 0 <= q < s.len() && is_json_ws(s[q]) {
        lemma_skip_ws_bounds(s, q + 1);
    }
}

fn skip_ws(s: &[u8], q: usize) -> (r: usize)
    requires
        q <= s@.len(),
    ensures
        r == skip_ws_from(s@, q as int),
        r <= s@.len(),
    decreases s@.len() - q,
{
    if q < s.len() && (s[q] == 0x20 || s[q] == 0x0d || s[q] == 0x0a || s[q] == 0x09) {
        skip_ws(s, q + 1)
    } else {
        q
    }
}

fn key_matches_at(json: &[u8], key: &[u8], p: usize) -> (r: bool)
    requires
        p < json@.len(),
    ensures
        r == key_hit(json@, key@, p as int),
{
    if json[p] != 0x22 {
        return false;
    }
    let mut i: usize = 0;
    while i < key.len() && i < json.len() - p - 1 && json[p + 1 + i] == key[i]
        invariant
            p < json@.len(),
            i <= key@.len(),
            p + 1 + i <= json@.len(),
            forall|j: int| 0 <= j < i ==> json@[p + 1 + j] == key@[j],
        decreases key@.len() - i,
    {
        i += 1;
    }
    if i == key.len() && i < json.len() - p - 1 && json[p + 1 + i] == 0x22 {
        assert(json@.subrange(p + 1, p + 1 + key@.len()) =~= key@);
        let q = skip_ws(json, p + 2 + key.len());
        q < json.len() && json[q] == 0x3a
    } else {
        proof {
            if key_hit(json@, key@, p as int) {
                assert(json@.subrange(p + 1, p + 1 + key@.len())[i as int] == key@[i as int]);
            }
        }
        false
    }
}

/// The bytes after the colon that follows the first `"key"` in `json`.
pub fn find_key<'a>(json: &'a [u8], key: &[u8]) -> (r: Option<&'a [u8]>)
    ensures
        match (r, spec_find_key(json@, key@)) {
            (Some(a), Some(b)) => a@ == b,
            (None, None) => true,
            _ => false,
        },
{
    reveal(spec_find_key);
    let mut p: usize = 0;
    while p < json.len()
        invariant
            forall|j: int| 0 <= j < p ==> !key_hit(json@, key@, j),
        decreases json@.len() - p,
    {
        if key_matches_at(json, key, p) {
            let q = skip_ws(json, p + 2 + key.len());
            proof {
                let k = choose|k: int| key_hit(json@, key@, k) && forall|j: int| 0 <= j < k ==> !key_hit(json@, key@, j);
                assert(key_hit(json@, key@, p as int) && forall|j: int| 0 <= j < p ==> !key_hit(json@, key@, j));
                if k < p {
                } else if p < k {
                    assert(!key_hit(json@, key@, p as int));
                }
                assert(k == p);
                assert(q == skip_ws_from(json@, p + 2 + key@.len()));
                reveal(spec_find_key);
                assert(spec_find_key(json@, key@) == Some(json@.skip(q + 1)));
            }
            let r = &json[q + 1..json.len()];
            assert(r@ =~= json@.skip(q + 1));
            return Some(r);
        }
        p += 1;
    }
    proof {
        assert forall|j: int| !key_hit(json@, key@, j) by {
            if 0 <= j < p {
            }
        }
    }
    None
}

/// The content of the string literal that `rest` begins with, after
/// optional whitespace: the bytes between the opening quote and the next quote.
#[verifier::opaque]
pub open spec fn spec_string_literal(rest: Seq<u8>) -> Option<Seq<u8>> {
    let a = skip_ws_from(rest, 0);
    if a < rest.len() && rest[a] == 0x22 && exists|e: int| a < e < rest.len() && rest[e] == 0x22 {
        let e = choose|e: int| a < e < rest.len() && rest[e] == 0x22
            && forall|k: int| a < k < e ==> rest[k] != 0x22;
        Some(rest.subrange(a + 1, e))
    } else {
        None
    }
}

/// The string value of `key` in `json`, when it fits a buffer of `cap` bytes
/// together with a terminating zero and holds no backslash.
#[verifier::opaque]
pub open spec fn spec_json_string(json: Seq<u8>, key: Seq<u8>, cap: int) -> Result<Seq<u8>, ()> {
    match spec_find_key(json, key) {
        None => Err(()),
        Some(rest) => match spec_string_literal(rest) {
            None => Err(()),
            Some(v) => if v.contains(0x5c) || (v.len() > 0 && v.len() >= cap) {
                Err(())
            } else {
                Ok(v)
            },
        },
    }
}

/// The position of the first quote in `s[from..]`, if any.
fn find_quote(s: &[u8], from: usize) -> (r: Option<usize>)
    requires
        from <= s@.len(),
    ensures
        match r {
            Some(e) => from <= e < s@.len() && s@[e as int] == 0x22
                && forall|k: int| from <= k < e ==> s@[k] != 0x22,
            None => forall|k: int| from <= k < s@.len() ==> s@[k] != 0x22,
        },
{
    let mut e = from;
    while e < s.len()
        invariant
            from <= e <= s@.len(),
            forall|k: int| from <= k < e ==> s@[k] != 0x22,
        decreases s@.len() - e,
    {
        if s[e] == 0x22 {
            return Some(e);
        }
        e += 1;
    }
    None
}

/// Where the string literal that `rest` begins with (after whitespace)
/// opens and closes.
fn string_literal(rest: &[u8]) -> (r: Option<(usize, usize)>)
    ensures
        match (r, spec_string_literal(rest@)) {
            (Some((a, e)), Some(v)) => a < e < rest@.len() && v == rest@.subrange(a + 1, e as int),
            (None, None) => true,
            _ => false,
        },
{
    reveal(spec_string_literal);
    let a = skip_ws(rest, 0);
    proof {
        lemma_skip_ws_bounds(rest@, 0);
    }
    if a >= rest.len() || rest[a] != 0x22 {
        return None;
    }
    let e = match find_quote(rest, a + 1) {
        Some(e) => e,
        None => {
            assert(!exists|e: int| a < e < rest@.len() && rest@[e] == 0x22);
            return None;
        },
    };
    proof {
        assert(a < e < rest@.len() && rest@[e as int] == 0x22);
        let e2 = choose|e2: int| a < e2 < rest@.len() && rest@[e2] == 0x22
            && forall|k: int| a < k < e2 ==> rest@[k] != 0x22;
        if e2 < e {
            assert(rest@[e2] != 0x22);
        } else if e < e2 {
            assert(rest@[e as int] != 0x22);
        }
    }
    Some((a, e))
}

/// Where copying the value `v` into a buffer of `cap` bytes stops, from
/// `j` on: at the first backslash, or at the first byte that would leave no
/// room for the terminating zero; `v.len()` when the whole value fits.
pub open spec fn copy_stop_from(v: Seq<u8>, cap: int, j: int) -> int
    decreases v.len() - j,
{
    if j < 0 || j >= v.len() {
        v.len() as int
    } else if v[j] == 0x5c || j + 1 >= cap {
        j
    } else {
        copy_stop_from(v, cap, j + 1)
    }
}

/// The buffer `out` after `json_string` read the value of `key`: unchanged
/// when there is no string value; on success the value, its terminating
/// zero where room is left, then the bytes that were there; otherwise the
/// bytes of the value copied before the copy stopped, then the bytes that
/// were there.
pub open spec fn json_string_output(json: Seq<u8>, key: Seq<u8>, out: Seq<u8>) -> Seq<u8> {
    match spec_find_key(json, key) {
        None => out,
        Some(rest) => match spec_string_literal(rest) {
            None => out,
            Some(v) => {
                let k = copy_stop_from(v, out.len() as int, 0);
                if k < v.len() {
                    v.take(k) + out.skip(k)
                } else if v.len() < out.len() {
                    v + seq![0u8] + out.skip(v.len() + 1int)
                } else {
                    v + out.skip(v.len() as int)
                }
            },
        },
    }
}

/// Copies the string value of `key` into `out`, zero-terminated where room
/// is left, and returns its length.
pub fn json_string(json: &[u8], key: &[u8], out: &mut [u8]) -> (r: Result<usize, ()>)
    ensures
        final(out)@.len() == old(out)@.len(),
        final(out)@ == json_string_output(json@, key@, old(out)@),
        r matches Ok(n) ==> n <= old(out)@.len() && (n == 0 || n < old(out)@.len()),
        r matches Ok(n) ==> (n < old(out)@.len() ==> final(out)@.skip(n + 1) == old(out)@.skip(n + 1)),
        match (r, spec_json_string(json@, key@, old(out)@.len() as int)) {
            (Ok(n), Ok(v)) => n == v.len() && final(out)@.take(n as int) == v
                && (n < old(out)@.len() ==> final(out)@[n as int] == 0),
            (Err(_), Err(_)) => true,
            _ => false,
        },
{
    reveal(spec_json_string);
    let rest = match find_key(json, key) {
        Some(rest) => rest,
        None => return Err(()),
    };
    let (a, e) = match string_literal(rest) {
        Some(ae) => ae,
        None => return Err(()),
    };
    let ghost v = rest@.subrange(a + 1, e as int);
    let ghost o = old(out)@;
    assert(spec_find_key(json@, key@) == Some(rest@));
    assert(spec_string_literal(rest@) == Some(v));
    assert(spec_json_string(json@, key@, old(out)@.len() as int) == (if v.contains(0x5c) || (v.len() > 0
        && v.len() >= old(out)@.len()) { Err::<Seq<u8>, ()>(()) } else { Ok(v) }));
    let content = &rest[a + 1..e];
    assert(content@ == v);
    let cap = out.len();
    let mut n: usize = 0;
    while n < content.len()
        invariant
            content@ == v,
            o == old(out)@,
            spec_find_key(json@, key@) == Some(rest@),
            spec_string_literal(rest@) == Some(v),
            spec_json_string(json@, key@, o.len() as int) == (if v.contains(0x5c) || (v.len() > 0 && v.len()
                >= o.len()) { Err::<Seq<u8>, ()>(()) } else { Ok(v) }),
            cap == o.len(),
            out@.len() == cap,
            n <= v.len(),
            n == 0 || n < cap,
            copy_stop_from(v, cap as int, 0) == copy_stop_from(v, cap as int, n as int),
            forall|k: int| 0 <= k < n ==> v[k] != 0x5c && k + 1 < cap,
            forall|k: int| 0 <= k < n ==> out@[k] == v[k],
            forall|k: int| n <= k < cap ==> out@[k] == o[k],
        decreases v.len() - n,
    {
        if content[n] == 0x5c || n + 1 >= cap {
            proof {
                if content@[n as int] == 0x5c {
                    assert(v.contains(0x5c));
                }
                assert(copy_stop_from(v, cap as int, n as int) == n);
                assert(out@ =~= v.take(n as int) + o.skip(n as int));
            }
            return Err(());
        }
        out[n] = content[n];
        n += 1;
    }
    proof {
        if v.len() > 0 {
            assert(v[v.len() - 1] != 0x5c && v.len() - 1 + 1 < cap);
        }
        assert(!v.contains(0x5c));
    }
    if n < cap {
        out[n] = 0;
        assert(out@ =~= v + seq![0u8] + o.skip(v.len() + 1int));
        assert(out@.skip(n + 1) =~= o.skip(n + 1));
    } else {
        assert(out@ =~= v + o.skip(v.len() as int));
    }
    assert(out@.take(n as int) =~= v);
    Ok(n)
}

/// The value of a hexadecimal digit, or -1 for a byte that is none.
pub open spec fn hex_digit_value(c: u8) -> int {
    if 0x30 <= c <= 0x39 {
        c - 0x30
    } else if 0x61 <= c <= 0x66 {
        c - 0x61 + 10
    } else if 0x41 <= c <= 0x46 {
        c - 0x41 + 10
    } else {
        -1
    }
}

/// `s` begins with `0x` or `0X`.
pub open spec fn has_hex_prefix(s: Seq<u8>) -> bool {
    s.len() >= 2 && s[0] == 0x30 && (s[1] == 0x78 || s[1] == 0x58)
}

/// The radix of a number text: 16 after a `0x` prefix, 10 otherwise.
pub open spec fn number_radix(s: Seq<u8>) -> int {
    if has_hex_prefix(s) { 16 } else { 10 }
}

/// The digits of a number text: what follows the `0x` prefix, if any.
pub open spec fn number_digits(s: Seq<u8>) -> Seq<u8> {
    if has_hex_prefix(s) { s.skip(2) } else { s }
}

/// Reads digits of `radix` from `b[i..]` into `acc`, skipping underscores
/// and stopping at the first byte that is no hexadecimal digit; a digit at
/// or above the radix is an error, as is a number without digits.
pub open spec fn scan_number(b: Seq<u8>, radix: int, i: int, acc: int, saw: bool) -> Result<int, ()>
    decreases b.len() - i,
{
    if i < 0 || i >= b.len() {
        if saw { Ok(acc) } else { Err(()) }
    } else if b[i] == 0x5f {
        scan_number(b, radix, i + 1, acc, saw)
    } else if hex_digit_value(b[i]) < 0 {
        if saw { Ok(acc) } else { Err(()) }
    } else if hex_digit_value(b[i]) >= radix {
        Err(())
    } else {
        scan_number(b, radix, i + 1, acc * radix + hex_digit_value(b[i]), true)
    }
}

/// The value accumulated from `b[i..]` when the scan stops, whether it
/// then succeeds or fails.
pub open spec fn scan_peak(b: Seq<u8>, radix: int, i: int, acc: int) -> int
    decreases b.len() - i,
{
    if i < 0 || i >= b.len() {
        acc
    } else if b[i] == 0x5f {
        scan_peak(b, radix, i + 1, acc)
    } else if hex_digit_value(b[i]) < 0 || hex_digit_value(b[i]) >= radix {
        acc
    } else {
        scan_peak(b, radix, i + 1, acc * radix + hex_digit_value(b[i]))
    }
}

/// The number that a decimal or `0x`-prefixed hexadecimal text begins with.
pub open spec fn spec_parse_u64(s: Seq<u8>) -> Result<int, ()> {
    scan_number(number_digits(s), number_radix(s), 0, 0, false)
}

/// The digits that `parse_u64` reads from `s` make a number within `u64`
/// (beyond it the arithmetic would overflow).
pub open spec fn u64_text_fits(s: Seq<u8>) -> bool {
    scan_peak(number_digits(s), number_radix(s), 0, 0) <= u64::MAX
}

proof fn lemma_scan_peak_grows(b: Seq<u8>, radix: int, i: int, acc: int)
    requires
        radix >= 1,
        acc >= 0,
    ensures
        acc <= scan_peak(b, radix, i, acc),
    decreases b.len() - i,
{
    if i < 0 || i >= b.len() {
    } else if b[i] == 0x5f {
        lemma_scan_peak_grows(b, radix, i + 1, acc);
    } else if hex_digit_value(b[i]) < 0 || hex_digit_value(b[i]) >= radix {
    } else {
        assert(acc * radix >= acc) by (nonlinear_arith)
            requires acc >= 0, radix >= 1;
        lemma_scan_peak_grows(b, radix, i + 1, acc * radix + hex_digit_value(b[i]));
    }
}

fn digit_value(c: u8) -> (r: Option<u8>)
    ensures
        match r {
            Some(d) => d as int == hex_digit_value(c) && hex_digit_value(c) >= 0,
            None => hex_digit_value(c) < 0,
        },
{
    if c >= 0x30 && c <= 0x39 {
        Some(c - 0x30)
    } else if c >= 0x61 && c <= 0x66 {
        Some(c - 0x61 + 10)
    } else if c >= 0x41 && c <= 0x46 {
        Some(c - 0x41 + 10)
    } else {
        None
    }
}

/// Reads a decimal or `0x`-prefixed hexadecimal number from the start of
/// `s`; underscores between digits are ignored and reading stops at the
/// first byte that is no digit.
pub fn parse_u64(s: &[u8]) -> (r: Result<u64, ()>)
    requires
        u64_text_fits(s@),
    ensures
        match (r, spec_parse_u64(s@)) {
            (Ok(v), Ok(w)) => v == w,
            (Err(_), Err(_)) => true,
            _ => false,
        },
{
    let mut radix: u64 = 10;
    let mut digits = s;
    if s.len() >= 2 && s[0] == 0x30 && (s[1] == 0x78 || s[1] == 0x58) {
        radix = 16;
        digits = &s[2..s.len()];
    }
    assert(digits@ =~= number_digits(s@));
    let ghost b = digits@;
    let mut value: u64 = 0;
    let mut saw = false;
    let mut i: usize = 0;
    while i < digits.len()
        invariant
            b == digits@,
            b == number_digits(s@),
            radix as int == number_radix(s@),
            i <= b.len(),
            scan_number(b, radix as int, 0, 0, false) == scan_number(b, radix as int, i as int, value as int, saw),
            scan_peak(b, radix as int, 0, 0) == scan_peak(b, radix as int, i as int, value as int),
            scan_peak(b, radix as int, 0, 0) <= u64::MAX,
        ensures
            scan_number(b, radix as int, 0, 0, false) == (if saw { Ok::<int, ()>(value as int) } else { Err(()) }),
        decreases b.len() - i,
    {
        if digits[i] == 0x5f {
            i += 1;
            continue;
        }
        let d = match digit_value(digits[i]) {
            Some(d) => d,
            None => {
                assert(hex_digit_value(b[i as int]) < 0);
                break;
            },
        };
        if d as u64 >= radix {
            assert(scan_number(b, radix as int, i as int, value as int, saw) == Err::<int, ()>(()));
            return Err(());
        }
        proof {
            lemma_scan_peak_grows(b, radix as int, i + 1, value * radix + d);
        }
        value = value * radix + d as u64;
        saw = true;
        i += 1;
    }
    if saw {
        Ok(value)
    } else {
        Err(())
    }
}

/// Whether the digits that `parse_u64` would read from `s` make a number
/// within `u64`.
pub fn u64_text_in_range(s: &[u8]) -> (r: bool)
    ensures
        r == u64_text_fits(s@),
{
    let mut radix: u64 = 10;
    let mut digits = s;
    if s.len() >= 2 && s[0] == 0x30 && (s[1] == 0x78 || s[1] == 0x58) {
        radix = 16;
        digits = &s[2..s.len()];
    }
    assert(digits@ =~= number_digits(s@));
    let ghost b = digits@;
    let mut value: u64 = 0;
    let mut i: usize = 0;
    while i < digits.len()
        invariant
            b == digits@,
            b == number_digits(s@),
            radix as int == number_radix(s@),
            i <= b.len(),
            scan_peak(b, radix as int, 0, 0) == scan_peak(b, radix as int, i as int, value as int),
        ensures
            scan_peak(b, radix as int, 0, 0) == value,
        decreases b.len() - i,
    {
        if digits[i] == 0x5f {
            i += 1;
            continue;
        }
        let d = match digit_value(digits[i]) {
            Some(d) => d,
            None => {
                assert(hex_digit_value(b[i as int]) < 0);
                break;
            },
        };
        if d as u64 >= radix {
            break;
        }
        assert(scan_peak(b, radix as int, i as int, value as int)
            == scan_peak(b, radix as int, i + 1, value * radix + d));
        if value > (u64::MAX - d as u64) / radix {
            proof {
                lemma_scan_peak_grows(b, radix as int, i + 1, value * radix + d);
                let (vi, ri, di) = (value as int, radix as int, d as int);
                assert(vi * ri + di > u64::MAX) by (nonlinear_arith)
                    requires vi > (u64::MAX - di) / ri, ri > 0, 0 <= di <= u64::MAX;
            }
            return false;
        }
        proof {
            let (vi, ri, di) = (value as int, radix as int, d as int);
            assert(vi * ri + di <= u64::MAX) by (nonlinear_arith)
                requires vi <= (u64::MAX - di) / ri, ri > 0, 0 <= di <= u64::MAX, vi >= 0;
        }
        value = value * radix + d as u64;
        i += 1;
    }
    true
}

/// The number that follows, after optional whitespace, the first `"key":`.
pub open spec fn spec_json_u64(json: Seq<u8>, key: Seq<u8>) -> Result<int, ()> {
    match spec_find_key(json, key) {
        None => Err(()),
        Some(rest) => spec_parse_u64(rest.skip(skip_ws_from(rest, 0))),
    }
}

/// The number that `json_u64` would read for `key` is within `u64`.
pub open spec fn json_u64_fits(json: Seq<u8>, key: Seq<u8>) -> bool {
    match spec_find_key(json, key) {
        None => true,
        Some(rest) => u64_text_fits(rest.skip(skip_ws_from(rest, 0))),
    }
}

/// The number held in the string value of `key` (up to 63 bytes long).
pub open spec fn spec_json_addr(json: Seq<u8>, key: Seq<u8>) -> Result<int, ()> {
    match spec_json_string(json, key, 64) {
        Err(_) => Err(()),
        Ok(v) => spec_parse_u64(v),
    }
}

/// The number that `json_addr_string` would read for `key` is within `u64`.
pub open spec fn json_addr_fits(json: Seq<u8>, key: Seq<u8>) -> bool {
    match spec_json_string(json, key, 64) {
        Err(_) => true,
        Ok(v) => u64_text_fits(v),
    }
}

/// Reads the number that is the value of `key`.
pub fn json_u64(json: &[u8], key: &[u8]) -> (r: Result<u64, ()>)
    requires
        json_u64_fits(json@, key@),
    ensures
        match (r, spec_json_u64(json@, key@)) {
            (Ok(v), Ok(w)) => v == w,
            (Err(_), Err(_)) => true,
            _ => false,
        },
{
    let rest = match find_key(json, key) {
        Some(rest) => rest,
        None => return Err(()),
    };
    let a = skip_ws(rest, 0);
    let p = &rest[a..rest.len()];
    assert(p@ =~= rest@.skip(a as int));
    parse_u64(p)
}

/// Reads the number written inside the string value of `key`, such as an
/// address given as `"0x9000000000200000"`.
pub fn json_addr_string(json: &[u8], key: &[u8]) -> (r: Result<u64, ()>)
    requires
        json_addr_fits(json@, key@),
    ensures
        match (r, spec_json_addr(json@, key@)) {
            (Ok(v), Ok(w)) => v == w,
            (Err(_), Err(_)) => true,
            _ => false,
        },
{
    let mut buf = [0u8; 64];
    let len = match json_string(json, key, &mut buf) {
        Ok(len) => len,
        Err(_) => return Err(()),
    };
    let text = &buf[0..len];
    assert(text@ =~= buf@.take(len as int));
    parse_u64(text)
}

/// `kernel_url`
pub open spec fn kernel_url_key() -> Seq<u8> {
    seq![0x6b, 0x65, 0x72, 0x6e, 0x65, 0x6c, 0x5f, 0x75, 0x72, 0x6c]
}

/// `kernel_size`
pub open spec fn kernel_size_key() -> Seq<u8> {
    seq![0x6b, 0x65, 0x72, 0x6e, 0x65, 0x6c, 0x5f, 0x73, 0x69, 0x7a, 0x65]
}

/// `kernel_load_addr`
pub open spec fn kernel_load_addr_key() -> Seq<u8> {
    seq![0x6b, 0x65, 0x72, 0x6e, 0x65, 0x6c, 0x5f, 0x6c, 0x6f, 0x61, 0x64, 0x5f, 0x61, 0x64, 0x64, 0x72]
}

/// `entry_point`
pub open spec fn entry_point_key() -> Seq<u8> {
    seq![0x65, 0x6e, 0x74, 0x72, 0x79, 0x5f, 0x70, 0x6f, 0x69, 0x6e, 0x74]
}

/// `arch`
pub open spec fn arch_key() -> Seq<u8> {
    seq![0x61, 0x72, 0x63, 0x68]
}

/// The room for the kernel URL, terminating zero included.
pub const KERNEL_URL_CAP: usize = 1024;

/// The room for the architecture name, terminating zero included.
pub const ARCH_CAP: usize = 32;

/// What the boot manifest tells the loader.
pub struct Manifest {
    /// The kernel URL, zero-terminated, in a buffer of `KERNEL_URL_CAP` bytes.
    pub kernel_url: Vec<u8>,
    pub kernel_url_len: usize,
    pub kernel_size: u64,
    pub kernel_load_addr: u64,
    pub entry_point: u64,
    /// The architecture name, zero-terminated, in a buffer of `ARCH_CAP` bytes.
    pub arch: Vec<u8>,
    pub arch_len: usize,
}

impl Manifest {
    /// The kernel URL.
    pub open spec fn url(&self) -> Seq<u8> {
        self.kernel_url@.take(self.kernel_url_len as int)
    }

    /// The architecture name.
    pub open spec fn arch_name(&self) -> Seq<u8> {
        self.arch@.take(self.arch_len as int)
    }
}

/// Every number that `parse_manifest` reads from `json` is within `u64`.
pub open spec fn manifest_numbers_fit(json: Seq<u8>) -> bool {
    spec_json_string(json, kernel_url_key(), 1024) is Ok ==> {
        &&& json_u64_fits(json, kernel_size_key())
        &&& spec_json_u64(json, kernel_size_key()) is Ok ==> {
            &&& json_addr_fits(json, kernel_load_addr_key())
            &&& spec_json_addr(json, kernel_load_addr_key()) is Ok ==> json_addr_fits(json, entry_point_key())
        }
    }
}

/// `json` is a manifest that `parse_manifest` accepts.
pub open spec fn manifest_ok(json: Seq<u8>) -> bool {
    &&& spec_json_string(json, kernel_url_key(), 1024) is Ok
    &&& spec_json_u64(json, kernel_size_key()) is Ok
    &&& spec_json_addr(json, kernel_load_addr_key()) is Ok
    &&& spec_json_addr(json, entry_point_key()) is Ok
    &&& spec_json_string(json, arch_key(), 32) is Ok
}

/// `m` holds what `json` says.
pub open spec fn manifest_matches(m: Manifest, json: Seq<u8>) -> bool {
    &&& m.kernel_url@.len() == KERNEL_URL_CAP
    &&& m.arch@.len() == ARCH_CAP
    &&& Ok::<Seq<u8>, ()>(m.url()) == spec_json_string(json, kernel_url_key(), 1024)
    &&& m.kernel_url_len < KERNEL_URL_CAP
    &&& forall|k: int| m.kernel_url_len <= k < KERNEL_URL_CAP ==> m.kernel_url@[k] == 0
    &&& Ok::<int, ()>(m.kernel_size as int) == spec_json_u64(json, kernel_size_key())
    &&& Ok::<int, ()>(m.kernel_load_addr as int) == spec_json_addr(json, kernel_load_addr_key())
    &&& Ok::<int, ()>(m.entry_point as int) == spec_json_addr(json, entry_point_key())
    &&& Ok::<Seq<u8>, ()>(m.arch_name()) == spec_json_string(json, arch_key(), 32)
    &&& m.arch_len < ARCH_CAP
    &&& forall|k: int| m.arch_len <= k < ARCH_CAP ==> m.arch@[k] == 0
}

/// Reads the boot manifest from `json`.
pub fn parse_manifest(json: &[u8]) -> (r: Result<Manifest, ()>)
    requires
        manifest_numbers_fit(json@),
    ensures
        r is Ok <==> manifest_ok(json@),
        r matches Ok(m) ==> manifest_matches(m, json@),
{
    let url_key: [u8; 10] = [0x6b, 0x65, 0x72, 0x6e, 0x65, 0x6c, 0x5f, 0x75, 0x72, 0x6c];
    let size_key: [u8; 11] = [0x6b, 0x65, 0x72, 0x6e, 0x65, 0x6c, 0x5f, 0x73, 0x69, 0x7a, 0x65];
    let load_key: [u8; 16] = [0x6b, 0x65, 0x72, 0x6e, 0x65, 0x6c, 0x5f, 0x6c, 0x6f, 0x61, 0x64, 0x5f,
        0x61, 0x64, 0x64, 0x72];
    let entry_key: [u8; 11] = [0x65, 0x6e, 0x74, 0x72, 0x79, 0x5f, 0x70, 0x6f, 0x69, 0x6e, 0x74];
    let arch_key_bytes: [u8; 4] = [0x61, 0x72, 0x63, 0x68];
    assert(url_key@ =~= kernel_url_key());
    assert(size_key@ =~= kernel_size_key());
    assert(load_key@ =~= kernel_load_addr_key());
    assert(entry_key@ =~= entry_point_key());
    assert(arch_key_bytes@ =~= arch_key());
    let mut kernel_url = vec![0u8; KERNEL_URL_CAP];
    let mut arch = vec![0u8; ARCH_CAP];
    let ghost url_zeros = kernel_url@;
    assert(forall|k: int| 0 <= k < KERNEL_URL_CAP ==> url_zeros[k] == 0);
    let kernel_url_len = match json_string(json, &url_key, kernel_url.as_mut_slice()) {
        Ok(n) => n,
        Err(_) => return Err(()),
    };
    proof {
        assert forall|k: int| kernel_url_len <= k < KERNEL_URL_CAP implies kernel_url@[k] == 0 by {
            if k > kernel_url_len {
                assert(kernel_url@.skip(kernel_url_len + 1)[k - kernel_url_len - 1] == url_zeros.skip(
                    kernel_url_len + 1,
                )[k - kernel_url_len - 1]);
            }
        }
    }
    let kernel_size = match json_u64(json, &size_key) {
        Ok(v) => v,
        Err(_) => return Err(()),
    };
    let kernel_load_addr = match json_addr_string(json, &load_key) {
        Ok(v) => v,
        Err(_) => return Err(()),
    };
    let entry_point = match json_addr_string(json, &entry_key) {
        Ok(v) => v,
        Err(_) => return Err(()),
    };
    let ghost arch_zeros = arch@;
    assert(forall|k: int| 0 <= k < ARCH_CAP ==> arch_zeros[k] == 0);
    let arch_len = match json_string(json, &arch_key_bytes, arch.as_mut_slice()) {
        Ok(n) => n,
        Err(_) => return Err(()),
    };
    proof {
        assert forall|k: int| arch_len <= k < ARCH_CAP implies arch@[k] == 0 by {
            if k > arch_len {
                assert(arch@.skip(arch_len + 1)[k - arch_len - 1] == arch_zeros.skip(arch_len + 1)[k - arch_len
                    - 1]);
            }
        }
    }
    let m = Manifest { kernel_url, kernel_url_len, kernel_size, kernel_load_addr, entry_point, arch, arch_len };
    assert(m.url() == m.kernel_url@.take(m.kernel_url_len as int));
    Ok(m)
}

/// Whether every number that `parse_manifest` would read from `json` is
/// within `u64`; the check to make before calling it on untrusted input.
pub fn manifest_numbers_in_range(json: &[u8]) -> (r: bool)
    ensures
        r == manifest_numbers_fit(json@),
{
    let url_key: [u8; 10] = [0x6b, 0x65, 0x72, 0x6e, 0x65, 0x6c, 0x5f, 0x75, 0x72, 0x6c];
    let size_key: [u8; 11] = [0x6b, 0x65, 0x72, 0x6e, 0x65, 0x6c, 0x5f, 0x73, 0x69, 0x7a, 0x65];
    let load_key: [u8; 16] = [0x6b, 0x65, 0x72, 0x6e, 0x65, 0x6c, 0x5f, 0x6c, 0x6f, 0x61, 0x64, 0x5f,
        0x61, 0x64, 0x64, 0x72];
    let entry_key: [u8; 11] = [0x65, 0x6e, 0x74, 0x72, 0x79, 0x5f, 0x70, 0x6f, 0x69, 0x6e, 0x74];
    assert(url_key@ =~= kernel_url_key());
    assert(size_key@ =~= kernel_size_key());
    assert(load_key@ =~= kernel_load_addr_key());
    assert(entry_key@ =~= entry_point_key());
    let mut url_buf = vec![0u8; KERNEL_URL_CAP];
    if json_string(json, &url_key, url_buf.as_mut_slice()).is_err() {
        return true;
    }
    let size_text = match find_key(json, &size_key) {
        Some(rest) => {
            let a = skip_ws(rest, 0);
            let t = &rest[a..rest.len()];
            assert(t@ =~= rest@.skip(a as int));
            t
        },
        None => return true,
    };
    if !u64_text_in_range(size_text) {
        return false;
    }
    if parse_u64(size_text).is_err() {
        return true;
    }
    let mut load_buf = [0u8; 64];
    let load_text = match json_string(json, &load_key, &mut load_buf) {
        Ok(len) => {
            let t = &load_buf[0..len];
            assert(t@ =~= load_buf@.take(len as int));
            t
        },
        Err(_) => return true,
    };
    if !u64_text_in_range(load_text) {
        return false;
    }
    if parse_u64(load_text).is_err() {
        return true;
    }
    let mut entry_buf = [0u8; 64];
    match json_string(json, &entry_key, &mut entry_buf) {
        Ok(len) => {
            let t = &entry_buf[0..len];
            assert(t@ =~= entry_buf@.take(len as int));
            u64_text_in_range(t)
        },
        Err(_) => true,
    }
}

} // verus!
