//! Framing of TLS records: the five-byte record header and the search for
//! application-data records in a received byte stream.
use vstd::prelude::*;

verus! {

/// The content type of TLS application data.
pub const TLS_APPLICATION_DATA: u8 = 23;

/// The size of a TLS record header.
pub const TLS_RECORD_HEADER_LEN: usize = 5;

/// The largest payload that a record header can declare.
pub const TLS_MAX_PAYLOAD: usize = 0xffff;

/// The record header of an application-data record of TLS 1.2 begins at `i`:
/// content type 23, version 3.3.
pub open spec fn app_record_tag_at(s: Seq<u8>, i: int) -> bool {
    s[i] == 23 && s[i + 1] == 3 && s[i + 2] == 3
}

/// The payload length that a record header declares (big-endian).
pub open spec fn declared_payload_len(s: Seq<u8>) -> int {
    s[3] as int * 256 + s[4] as int
}

/// The total length (header included) of the application-data record that
/// begins the first `len` bytes of `s`, if one is declared there.
pub open spec fn spec_tls_record_declared_len(s: Seq<u8>, len: int) -> Option<int> {
    if len < 5 || !app_record_tag_at(s, 0) {
        None
    } else {
        Some(declared_payload_len(s) + 5)
    }
}

/// The length of the record at the start of the first `len` bytes of `s`,
/// capped at `len`; `len` itself when fewer than five bytes are there.
pub open spec fn spec_tls_record_total_len(s: Seq<u8>, len: int) -> int {
    if len < 5 {
        len
    } else if declared_payload_len(s) + 5 <= len {
        declared_payload_len(s) + 5
    } else {
        len
    }
}

/// The first position `i` with `i + 4 < len` where an application-data
/// record header begins, if any.
pub open spec fn spec_find_tls_app_record_start(s: Seq<u8>, len: int) -> Option<int> {
    if exists|i: int| 0 <= i && i + 4 < len && app_record_tag_at(s, i) {
        Some(choose|i: int| 0 <= i && i + 4 < len && app_record_tag_at(s, i)
            && forall|j: int| 0 <= j < i ==> !app_record_tag_at(s, j))
    } else {
        None
    }
}

/// The record that `build_tls_plaintext_record` frames: application data,
/// version 3.3, then the payload length in little-endian order (the byte
/// order the firmware's TLS encryption reads it in), then the payload.
pub open spec fn plaintext_record(payload: Seq<u8>) -> Seq<u8> {
    seq![23u8, 3u8, 3u8, (payload.len() % 256) as u8, (payload.len() / 256) as u8] + payload
}

/// Frames `payload` as a plaintext record into `out` and returns the record
/// length; returns 0 and writes nothing when `out` is too short or the
/// payload is longer than a record can declare.
pub fn build_tls_plaintext_record(out: &mut [u8], payload: &[u8]) -> (r: usize)
    ensures
        final(out)@.len() == old(out)@.len(),
        (old(out)@.len() < payload@.len() + 5 || payload@.len() > 0xffff) ==> r == 0
            && final(out)@ == old(out)@,
        !(old(out)@.len() < payload@.len() + 5 || payload@.len() > 0xffff) ==> r == payload@.len() + 5
            && final(out)@ == plaintext_record(payload@) + old(out)@.skip(r as int),
{
    if payload.len() > TLS_MAX_PAYLOAD || out.len() < payload.len() + 5 {
        return 0;
    }
    let n = payload.len();
    out[0] = 23;
    out[1] = 3;
    out[2] = 3;
    out[3] = (n & 0xff) as u8;
    out[4] = ((n >> 8) & 0xff) as u8;
    assert((n & 0xff) == n % 256 && ((n >> 8) & 0xff) == n / 256) by (bit_vector)
        requires n <= 0xffff;
    let mut i: usize = 0;
    while i < n
        invariant
            n == payload@.len(),
            n + 5 <= out.len(),
            out@.len() == old(out)@.len(),
            i <= n,
            out@[0] == 23 && out@[1] == 3 && out@[2] == 3,
            out@[3] == (n % 256) as u8 && out@[4] == (n / 256) as u8,
            forall|j: int| 0 <= j < i ==> out@[5 + j] == payload@[j],
            forall|j: int| 5 + n <= j < out@.len() ==> out@[j] == old(out)@[j],
        decreases n - i,
    {
        out[5 + i] = payload[i];
        i += 1;
    }
    assert(out@ =~= plaintext_record(payload@) + old(out)@.skip(n + 5));
    n + 5
}

/// The length of the record at the start of `bytes[..len]`, capped at `len`.
pub fn tls_record_total_len(bytes: &[u8], len: usize) -> (r: usize)
    requires
        len >= 5 ==> bytes@.len() >= 5,
    ensures
        r == spec_tls_record_total_len(bytes@, len as int),
{
    if len < 5 {
        return len;
    }
    let payload_len = ((bytes[3] as usize) << 8) | bytes[4] as usize;
    let (b3, b4) = (bytes[3], bytes[4]);
    assert(((b3 as usize) << 8usize) | (b4 as usize) == (b3 as usize) * 256 + (b4 as usize)) by (bit_vector);
    let total_len = payload_len + 5;
    if total_len <= len {
        total_len
    } else {
        len
    }
}

/// The declared total length of the application-data record at the start
/// of `bytes[..len]`, if a record header of that kind is there.
pub fn tls_record_declared_len(bytes: &[u8], len: usize) -> (r: Option<usize>)
    requires
        len >= 5 ==> bytes@.len() >= 5,
    ensures
        match (r, spec_tls_record_declared_len(bytes@, len as int)) {
            (Some(a), Some(b)) => a == b,
            (None, None) => true,
            _ => false,
        },
{
    if len < 5 {
        return None;
    }
    if bytes[0] != 23 || bytes[1] != 3 || bytes[2] != 3 {
        return None;
    }
    let (b3, b4) = (bytes[3], bytes[4]);
    assert(((b3 as usize) << 8usize) | (b4 as usize) == (b3 as usize) * 256 + (b4 as usize)) by (bit_vector);
    Some((((bytes[3] as usize) << 8) | bytes[4] as usize) + 5)
}

/// The first offset in `bytes[..len]` where an application-data record
/// header begins with at least five bytes there.
pub fn find_tls_app_record_start(bytes: &[u8], len: usize) -> (r: Option<usize>)
    requires
        len <= bytes@.len(),
    ensures
        r matches Some(i) ==> i + 4 < len && app_record_tag_at(bytes@, i as int)
            && forall|j: int| 0 <= j < i ==> !app_record_tag_at(bytes@, j),
        r is None ==> forall|j: int| 0 <= j && j + 4 < len ==> !app_record_tag_at(bytes@, j),
        match (r, spec_find_tls_app_record_start(bytes@, len as int)) {
            (Some(a), Some(b)) => a == b,
            (None, None) => true,
            _ => false,
        },
{
    let mut i: usize = 0;
    while i < len && len - i > 4
        invariant
            len <= bytes@.len(),
            forall|j: int| 0 <= j < i ==> !app_record_tag_at(bytes@, j),
        decreases len - i,
    {
        if bytes[i] == 23 && bytes[i + 1] == 3 && bytes[i + 2] == 3 {
            proof {
                let s = bytes@;
                assert(0 <= i && i + 4 < len && app_record_tag_at(s, i as int));
                let k = choose|k: int| 0 <= k && k + 4 < len && app_record_tag_at(s, k)
                    && forall|j: int| 0 <= j < k ==> !app_record_tag_at(s, j);
                assert(0 <= i && i + 4 < len && app_record_tag_at(s, i as int)
                    && forall|j: int| 0 <= j < i ==> !app_record_tag_at(s, j));
                if k < i {
                } else if i < k {
                    assert(!app_record_tag_at(s, i as int));
                }
            }
            return Some(i);
        }
        i += 1;
    }
    None
}

/// A record framed by `build_tls_plaintext_record` is found where it
/// begins by the loader's search for application-data records, and its
/// header declares a record (its length field read in network order).
pub proof fn law_framed_record_is_found(payload: Seq<u8>)
    requires
        payload.len() <= 0xffff,
    ensures
        spec_find_tls_app_record_start(plaintext_record(payload), plaintext_record(payload).len() as int) == Some(
            0int,
        ),
        spec_tls_record_declared_len(plaintext_record(payload), plaintext_record(payload).len() as int) is Some,
{
    let r = plaintext_record(payload);
    let len = r.len() as int;
    assert(app_record_tag_at(r, 0));
    assert(0 <= 0 && 0 + 4 < len && app_record_tag_at(r, 0));
    let i = choose|i: int| 0 <= i && i + 4 < len && app_record_tag_at(r, i)
        && forall|j: int| 0 <= j < i ==> !app_record_tag_at(r, j);
    assert(0 <= 0 && 0 + 4 < len && app_record_tag_at(r, 0) && forall|j: int| 0 <= j < 0 ==> !app_record_tag_at(r, j));
    if i > 0 {
        assert(!app_record_tag_at(r, 0));
    }
}

/// The lengths read from a record header: the header is five bytes, the
/// payload length is bytes 3 and 4 in network order (high byte first); the
/// declared length needs an application-data header (type 23, version
/// 3.3), and the total length is the declared one capped at what is there.
pub proof fn law_record_lengths(s: Seq<u8>, len: int)
    requires
        len >= 5 ==> s.len() >= 5,
    ensures
        len < 5 ==> spec_tls_record_declared_len(s, len) is None && spec_tls_record_total_len(s, len) == len,
        len >= 5 && s[0] == 23 && s[1] == 3 && s[2] == 3 ==> spec_tls_record_declared_len(s, len) == Some(
            s[3] as int * 256 + s[4] as int + 5,
        ),
        len >= 5 && !(s[0] == 23 && s[1] == 3 && s[2] == 3) ==> spec_tls_record_declared_len(s, len) is None,
        len >= 5 && s[3] as int * 256 + s[4] as int + 5 <= len ==> spec_tls_record_total_len(s, len) == s[3] as int
            * 256 + s[4] as int + 5,
        len >= 5 && s[3] as int * 256 + s[4] as int + 5 > len ==> spec_tls_record_total_len(s, len) == len,
{
}

/// The plaintext record framed for the firmware's encryption: the header
/// of an application-data record of version 3.3, the payload length with
/// its low byte first, then the payload itself.
pub proof fn law_plaintext_record_layout(payload: Seq<u8>)
    requires
        payload.len() <= 0xffff,
    ensures
        plaintext_record(payload).len() == payload.len() + 5,
        plaintext_record(payload)[0] == 23 && plaintext_record(payload)[1] == 3 && plaintext_record(payload)[2] == 3,
        plaintext_record(payload)[3] as int + plaintext_record(payload)[4] as int * 256 == payload.len(),
        plaintext_record(payload).skip(5) == payload,
{
    let r = plaintext_record(payload);
    assert(r.skip(5) =~= payload);
}

} // verus!
