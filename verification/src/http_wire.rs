//! The HTTP/1.1 wire format that the loader speaks over its own TLS
//! connection: the GET request it sends, and the status line and header end
//! it looks for in the response.
use vstd::prelude::*;
use crate::status::{EfiStatus, EFI_BUFFER_TOO_SMALL};

verus! {

/// A header block ends at `i`: `\r\n\r\n` occupies `s[i..i + 4]`.
pub open spec fn header_end_at(s: Seq<u8>, i: int) -> bool {
    s[i] == 0x0d && s[i + 1] == 0x0a && s[i + 2] == 0x0d && s[i + 3] == 0x0a
}

/// Where the body begins in the first `len` bytes of an HTTP message: just
/// after the first `\r\n\r\n`, if the header block ends within them.
#[verifier::opaque]
pub open spec fn spec_http_body_offset(s: Seq<u8>, len: int) -> Option<int> {
    if exists|i: int| 0 <= i && i + 3 < len && header_end_at(s, i) {
        let i = choose|i: int| 0 <= i && i + 3 < len && header_end_at(s, i)
            && forall|j: int| 0 <= j < i ==> !header_end_at(s, j);
        Some(i + 4)
    } else {
        None
    }
}

/// `HTTP/` begins at `i`.
pub open spec fn status_tag_at(s: Seq<u8>, i: int) -> bool {
    s[i] == 0x48 && s[i + 1] == 0x54 && s[i + 2] == 0x54 && s[i + 3] == 0x50 && s[i + 4] == 0x2f
}

/// The first position `i` with `i + 11 < len` where `HTTP/` begins.
#[verifier::opaque]
pub open spec fn spec_http_status_offset(s: Seq<u8>, len: int) -> Option<int> {
    if exists|i: int| 0 <= i && i + 11 < len && status_tag_at(s, i) {
        Some(choose|i: int| 0 <= i && i + 11 < len && status_tag_at(s, i)
            && forall|j: int| 0 <= j < i ==> !status_tag_at(s, j))
    } else {
        None
    }
}

/// The status line found in the first `len` bytes carries status code 200:
/// after `HTTP/x.y` come ` 200`.
pub open spec fn spec_status_is_200(s: Seq<u8>, len: int) -> bool {
    match spec_http_status_offset(s, len) {
        Some(o) => o + 11 < len && s[o + 8] == 0x20 && s[o + 9] == 0x32 && s[o + 10] == 0x30
            && s[o + 11] == 0x30,
        None => false,
    }
}

/// The offset just past the first `\r\n\r\n` in `bytes[..len]`.
pub fn find_http_body_offset(bytes: &[u8], len: usize) -> (r: Option<usize>)
    requires
        len <= bytes@.len(),
    ensures
        r matches Some(k) ==> 4 <= k <= len && header_end_at(bytes@, k - 4)
            && forall|j: int| 0 <= j < k - 4 ==> !header_end_at(bytes@, j),
        r is None ==> forall|j: int| 0 <= j && j + 3 < len ==> !header_end_at(bytes@, j),
        match (r, spec_http_body_offset(bytes@, len as int)) {
            (Some(a), Some(b)) => a == b,
            (None, None) => true,
            _ => false,
        },
{
    reveal(spec_http_body_offset);
    let mut i: usize = 0;
    while i < len && len - i > 3
        invariant
            len <= bytes@.len(),
            forall|j: int| 0 <= j < i ==> !header_end_at(bytes@, j),
        decreases len - i,
    {
        if bytes[i] == 0x0d && bytes[i + 1] == 0x0a && bytes[i + 2] == 0x0d && bytes[i + 3] == 0x0a {
            proof {
                reveal(spec_http_body_offset);
                let s = bytes@;
                assert(0 <= i && i + 3 < len && header_end_at(s, i as int));
                let k = choose|k: int| 0 <= k && k + 3 < len && header_end_at(s, k)
                    && forall|j: int| 0 <= j < k ==> !header_end_at(s, j);
                assert(0 <= i && i + 3 < len && header_end_at(s, i as int)
                    && forall|j: int| 0 <= j < i ==> !header_end_at(s, j));
                if i < k {
                    assert(!header_end_at(s, i as int));
                }
            }
            return Some(i + 4);
        }
        i += 1;
    }
    None
}

/// `o` is the first place in the first `len` bytes of `s` where `HTTP/`
/// begins with room for a status code after it.
pub open spec fn first_status_line_at(s: Seq<u8>, len: int, o: int) -> bool {
    0 <= o && o + 11 < len && status_tag_at(s, o) && forall|j: int| 0 <= j < o ==> !status_tag_at(s, j)
}

/// After the first `HTTP/x.y` come a space and exactly the digits `200`.
pub open spec fn status_code_200_at_first_line(s: Seq<u8>, len: int) -> bool {
    exists|o: int| #[trigger] first_status_line_at(s, len, o) && s[o + 8] == 0x20 && s[o + 9] == 0x32 && s[o
        + 10] == 0x30 && s[o + 11] == 0x30
}

/// The offset of the first `HTTP/` in `bytes[..len]` that is followed by at
/// least seven more bytes.
pub fn find_http_status_offset(bytes: &[u8], len: usize) -> (r: Option<usize>)
    requires
        len <= bytes@.len(),
    ensures
        r matches Some(i) ==> i + 11 < len && status_tag_at(bytes@, i as int)
            && forall|j: int| 0 <= j < i ==> !status_tag_at(bytes@, j),
        r is None ==> forall|j: int| 0 <= j && j + 11 < len ==> !status_tag_at(bytes@, j),
        match (r, spec_http_status_offset(bytes@, len as int)) {
            (Some(a), Some(b)) => a == b,
            (None, None) => true,
            _ => false,
        },
{
    reveal(spec_http_status_offset);
    let mut i: usize = 0;
    while i < len && len - i > 11
        invariant
            len <= bytes@.len(),
            forall|j: int| 0 <= j < i ==> !status_tag_at(bytes@, j),
        decreases len - i,
    {
        if bytes[i] == 0x48 && bytes[i + 1] == 0x54 && bytes[i + 2] == 0x54 && bytes[i + 3] == 0x50
            && bytes[i + 4] == 0x2f {
            proof {
                reveal(spec_http_status_offset);
                let s = bytes@;
                assert(0 <= i && i + 11 < len && status_tag_at(s, i as int));
                let k = choose|k: int| 0 <= k && k + 11 < len && status_tag_at(s, k)
                    && forall|j: int| 0 <= j < k ==> !status_tag_at(s, j);
                assert(0 <= i && i + 11 < len && status_tag_at(s, i as int)
                    && forall|j: int| 0 <= j < i ==> !status_tag_at(s, j));
                if i < k {
                    assert(!status_tag_at(s, i as int));
                }
            }
            return Some(i);
        }
        i += 1;
    }
    None
}

/// Whether the status line in `bytes[..len]` carries status code 200.
pub fn http_response_status_is_200(bytes: &[u8], len: usize) -> (r: bool)
    requires
        len <= bytes@.len(),
    ensures
        r == spec_status_is_200(bytes@, len as int),
        r <==> status_code_200_at_first_line(bytes@, len as int),
{
    proof {
        law_status_200_reads_the_code(bytes@, len as int);
    }
    match find_http_status_offset(bytes, len) {
        Some(offset) => {
            offset < len && len - offset > 11 && bytes[offset + 8] == 0x20 && bytes[offset + 9] == 0x32
                && bytes[offset + 10] == 0x30 && bytes[offset + 11] == 0x30
        },
        None => false,
    }
}

/// Among the positions `lo..=w`, where `f` holds at `w`, there is a first
/// one at which `f` holds.
pub proof fn lemma_first_witness(f: spec_fn(int) -> bool, lo: int, w: int)
    requires
        lo <= w,
        f(w),
    ensures
        exists|m: int| lo <= m <= w && #[trigger] f(m) && forall|j: int| lo <= j < m ==> !#[trigger] f(j),
    decreases w - lo,
{
    if exists|j: int| lo <= j < w && #[trigger] f(j) {
        let j = choose|j: int| lo <= j < w && #[trigger] f(j);
        lemma_first_witness(f, lo, j);
        let m = choose|m: int| lo <= m <= j && #[trigger] f(m) && forall|k: int| lo <= k < m ==> !#[trigger] f(k);
        assert(lo <= m <= w && f(m) && forall|k: int| lo <= k < m ==> !#[trigger] f(k));
    } else {
        assert(lo <= w <= w && f(w) && forall|k: int| lo <= k < w ==> !#[trigger] f(k));
    }
}

/// The body offset is `k` exactly when `k - 4` is the first place where
/// the header block ends.
pub proof fn lemma_body_offset_is(s: Seq<u8>, len: int, k: int)
    requires
        4 <= k <= len,
        header_end_at(s, k - 4),
        forall|j: int| 0 <= j < k - 4 ==> !header_end_at(s, j),
    ensures
        spec_http_body_offset(s, len) == Some(k),
{
    reveal(spec_http_body_offset);
    assert(0 <= k - 4 && k - 4 + 3 < len && header_end_at(s, k - 4));
    let i = choose|i: int| 0 <= i && i + 3 < len && header_end_at(s, i)
        && forall|j: int| 0 <= j < i ==> !header_end_at(s, j);
    assert(0 <= k - 4 && k - 4 + 3 < len && header_end_at(s, k - 4)
        && forall|j: int| 0 <= j < k - 4 ==> !header_end_at(s, j));
    if i < k - 4 {
        assert(!header_end_at(s, i));
    } else if k - 4 < i {
        assert(!header_end_at(s, k - 4));
    }
}

/// What the body offset says of the bytes.
pub proof fn lemma_body_offset_props(s: Seq<u8>, len: int)
    ensures
        spec_http_body_offset(s, len) matches Some(k) ==> 4 <= k <= len && header_end_at(s, k - 4)
            && forall|j: int| 0 <= j < k - 4 ==> !header_end_at(s, j),
        spec_http_body_offset(s, len) is None ==> forall|j: int| 0 <= j && j + 3 < len ==> !header_end_at(s, j),
{
    reveal(spec_http_body_offset);
    if exists|i: int| 0 <= i && i + 3 < len && header_end_at(s, i) {
        let w = choose|i: int| 0 <= i && i + 3 < len && header_end_at(s, i);
        let f = |i: int| 0 <= i && i + 3 < len && header_end_at(s, i);
        lemma_first_witness(f, 0, w);
        let m = choose|m: int| 0 <= m <= w && #[trigger] f(m) && forall|j: int| 0 <= j < m ==> !#[trigger] f(j);
        assert forall|j: int| 0 <= j < m implies !header_end_at(s, j) by {
            assert(!f(j));
        }
        lemma_body_offset_is(s, len, m + 4);
    }
}

/// The body offset found in `a` stays the same when more bytes follow.
pub proof fn lemma_body_offset_extend(a: Seq<u8>, b: Seq<u8>)
    requires
        spec_http_body_offset(a, a.len() as int) is Some,
    ensures
        spec_http_body_offset(a + b, (a + b).len() as int) == spec_http_body_offset(a, a.len() as int),
{
    lemma_body_offset_props(a, a.len() as int);
    let k = spec_http_body_offset(a, a.len() as int).unwrap();
    let c = a + b;
    assert(header_end_at(c, k - 4));
    assert forall|j: int| 0 <= j < k - 4 implies !header_end_at(c, j) by {
        assert(!header_end_at(a, j));
    }
    lemma_body_offset_is(c, c.len() as int, k);
}

/// `GET `
pub open spec fn get_prefix() -> Seq<u8> {
    seq![0x47, 0x45, 0x54, 0x20]
}

/// ` HTTP/1.1\r\nHost: 10.3.10.229\r\nConnection: `
pub open spec fn version_host_fields() -> Seq<u8> {
    seq![0x20, 0x48, 0x54, 0x54, 0x50, 0x2f, 0x31, 0x2e, 0x31, 0x0d, 0x0a, 0x48, 0x6f, 0x73,
        0x74, 0x3a, 0x20, 0x31, 0x30, 0x2e, 0x33, 0x2e, 0x31, 0x30, 0x2e, 0x32, 0x32, 0x39, 0x0d,
        0x0a, 0x43, 0x6f, 0x6e, 0x6e, 0x65, 0x63, 0x74, 0x69, 0x6f, 0x6e, 0x3a, 0x20]
}

/// `\r\n\r\n`
pub open spec fn header_block_end() -> Seq<u8> {
    seq![0x0d, 0x0a, 0x0d, 0x0a]
}

/// The GET request for `path` on the boot server with the given
/// `Connection` header value.
pub open spec fn get_request(path: Seq<u8>, connection: Seq<u8>) -> Seq<u8> {
    get_prefix() + path + version_host_fields() + connection + header_block_end()
}

fn copy_into(out: &mut [u8], at: usize, bytes: &[u8]) -> (end: usize)
    requires
        at + bytes@.len() <= old(out)@.len(),
    ensures
        end == at + bytes@.len(),
        final(out)@ == old(out)@.take(at as int) + bytes@ + old(out)@.skip(end as int),
{
    let mut i: usize = 0;
    while i < bytes.len()
        invariant
            at + bytes@.len() <= out.len(),
            out@.len() == old(out)@.len(),
            i <= bytes@.len(),
            forall|j: int| 0 <= j < at ==> out@[j] == old(out)@[j],
            forall|j: int| 0 <= j < i ==> out@[at + j] == bytes@[j],
            forall|j: int| at + bytes@.len() <= j < out@.len() ==> out@[j] == old(out)@[j],
        decreases bytes@.len() - i,
    {
        out[at + i] = bytes[i];
        i += 1;
    }
    assert(out@ =~= old(out)@.take(at as int) + bytes@ + old(out)@.skip(at + bytes@.len()));
    at + bytes.len()
}

/// Writes the GET request for `path` into `out` and returns its length;
/// fails with `EFI_BUFFER_TOO_SMALL`, writing nothing, when it does not fit.
pub fn build_http_get_request(path: &[u8], connection: &[u8], out: &mut [u8]) -> (r: Result<usize, EfiStatus>)
    requires
        path@.len() + connection@.len() + 50 <= usize::MAX,
    ensures
        final(out)@.len() == old(out)@.len(),
        get_request(path@, connection@).len() > old(out)@.len() ==> r == Err::<usize, EfiStatus>(
            EfiStatus(EFI_BUFFER_TOO_SMALL),
        ) && final(out)@ == old(out)@,
        get_request(path@, connection@).len() <= old(out)@.len() ==> r == Ok::<usize, EfiStatus>(
            get_request(path@, connection@).len() as usize,
        ) && final(out)@ == get_request(path@, connection@) + old(out)@.skip(
            get_request(path@, connection@).len() as int,
        ),
{
    let prefix: [u8; 4] = [0x47, 0x45, 0x54, 0x20];
    let version_host: [u8; 42] = [0x20, 0x48, 0x54, 0x54, 0x50, 0x2f, 0x31, 0x2e, 0x31, 0x0d, 0x0a,
        0x48, 0x6f, 0x73, 0x74, 0x3a, 0x20, 0x31, 0x30, 0x2e, 0x33, 0x2e, 0x31, 0x30, 0x2e, 0x32,
        0x32, 0x39, 0x0d, 0x0a, 0x43, 0x6f, 0x6e, 0x6e, 0x65, 0x63, 0x74, 0x69, 0x6f, 0x6e, 0x3a,
        0x20];
    let suffix: [u8; 4] = [0x0d, 0x0a, 0x0d, 0x0a];
    assert(prefix@ =~= get_prefix());
    assert(version_host@ =~= version_host_fields());
    assert(suffix@ =~= header_block_end());
    let needed = 4 + path.len() + 42 + connection.len() + 4;
    if needed > out.len() {
        return Err(EfiStatus(EFI_BUFFER_TOO_SMALL));
    }
    let n = copy_into(out, 0, &prefix);
    let n = copy_into(out, n, path);
    let n = copy_into(out, n, &version_host);
    let n = copy_into(out, n, connection);
    let n = copy_into(out, n, &suffix);
    assert(out@ =~= get_request(path@, connection@) + old(out)@.skip(n as int));
    Ok(n)
}

/// A response is read as status 200 exactly when its first status line
/// `HTTP/x.y` is followed by a space and the three digits `2`, `0`, `0`;
/// any other code (`400`, `500`, ...) is not read as 200.
pub proof fn law_status_200_reads_the_code(s: Seq<u8>, len: int)
    ensures
        spec_status_is_200(s, len) <==> status_code_200_at_first_line(s, len),
{
    reveal(spec_http_status_offset);
    if exists|i: int| 0 <= i && i + 11 < len && status_tag_at(s, i) {
        let w = choose|i: int| 0 <= i && i + 11 < len && status_tag_at(s, i);
        let f = |i: int| 0 <= i && i + 11 < len && status_tag_at(s, i);
        assert(f(w));
        lemma_first_witness(f, 0, w);
        let m = choose|m: int| 0 <= m <= w && #[trigger] f(m) && forall|j: int| 0 <= j < m ==> !#[trigger] f(j);
        assert forall|j: int| 0 <= j < m implies !status_tag_at(s, j) by {
            assert(!f(j));
        }
        assert(first_status_line_at(s, len, m));
        let o = choose|i: int| 0 <= i && i + 11 < len && status_tag_at(s, i)
            && forall|j: int| 0 <= j < i ==> !status_tag_at(s, j);
        if o < m {
            assert(!status_tag_at(s, o));
        } else if m < o {
            assert(!status_tag_at(s, m));
        }
        assert(spec_http_status_offset(s, len) == Some(m));
        assert forall|o2: int| first_status_line_at(s, len, o2) implies o2 == m by {
            if o2 < m {
                assert(!status_tag_at(s, o2));
            } else if m < o2 {
                assert(!status_tag_at(s, m));
            }
        }
    } else {
        assert forall|o2: int| !first_status_line_at(s, len, o2) by {
        }
    }
}

/// The GET request reads `GET `, the path, ` HTTP/1.1`, a `Host` field
/// naming the boot server, the `Connection` field with the given value, and
/// an empty line.
pub proof fn law_get_request_layout(path: Seq<u8>, connection: Seq<u8>)
    ensures
        ({
            let r = get_request(path, connection);
            let p = path.len() as int;
            let c = connection.len() as int;
            &&& r.len() == p + c + 50
            &&& r.take(4) == seq![0x47u8, 0x45u8, 0x54u8, 0x20u8]
            &&& r.subrange(4, 4 + p) == path
            &&& r.subrange(4 + p, 4 + p + 9) == seq![0x20u8, 0x48u8, 0x54u8, 0x54u8, 0x50u8, 0x2fu8, 0x31u8, 0x2eu8,
                0x31u8]
            &&& r.subrange(4 + p + 42, 4 + p + 42 + c) == connection
            &&& r.skip(r.len() - 4) == seq![0x0du8, 0x0au8, 0x0du8, 0x0au8]
        }),
{
    let r = get_request(path, connection);
    let p = path.len() as int;
    let c = connection.len() as int;
    assert(r.take(4) =~= seq![0x47u8, 0x45u8, 0x54u8, 0x20u8]);
    assert(r.subrange(4, 4 + p) =~= path);
    assert(r.subrange(4 + p, 4 + p + 9) =~= seq![0x20u8, 0x48u8, 0x54u8, 0x54u8, 0x50u8, 0x2fu8, 0x31u8, 0x2eu8,
        0x31u8]);
    assert(r.subrange(4 + p + 42, 4 + p + 42 + c) =~= connection);
    assert(r.skip(r.len() - 4) =~= seq![0x0du8, 0x0au8, 0x0du8, 0x0au8]);
}

} // verus!
