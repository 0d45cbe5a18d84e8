use vstd::prelude::*;
use crate::status::{EfiStatus, EFI_BUFFER_TOO_SMALL, EFI_UNSUPPORTED};

verus! {

/// The scheme prefix `https://`.
pub open spec fn https_prefix() -> Seq<u8> {
    seq![0x68, 0x74, 0x74, 0x70, 0x73, 0x3a, 0x2f, 0x2f]
}

/// The port marker `:3443/` that the boot server listens behind.
pub open spec fn port_3443_marker() -> Seq<u8> {
    seq![0x3a, 0x33, 0x34, 0x34, 0x33, 0x2f]
}

/// `s` begins with `prefix`.
pub open spec fn has_prefix(s: Seq<u8>, prefix: Seq<u8>) -> bool {
    s.len() >= prefix.len() && s.take(prefix.len() as int) == prefix
}

fn https_prefix_bytes() -> (r: [u8; 8])
    ensures
        r@ == https_prefix(),
{
    let r = [0x68, 0x74, 0x74, 0x70, 0x73, 0x3a, 0x2f, 0x2f];
    assert(r@ =~= https_prefix());
    r
}

fn port_3443_marker_bytes() -> (r: [u8; 6])
    ensures
        r@ == port_3443_marker(),
{
    let r = [0x3a, 0x33, 0x34, 0x34, 0x33, 0x2f];
    assert(r@ =~= port_3443_marker());
    r
}

/// Whether `haystack` begins with `needle`.
pub fn starts_with(haystack: &[u8], needle: &[u8]) -> (r: bool)
    ensures
        r == has_prefix(haystack@, needle@),
{
    if haystack.len() < needle.len() {
        return false;
    }
    let mut i: usize = 0;
    while i < needle.len()
        invariant
            needle@.len() <= haystack@.len(),
            i <= needle@.len(),
            forall|j: int| 0 <= j < i ==> haystack@[j] == needle@[j],
        decreases needle@.len() - i,
    {
        if haystack[i] != needle[i] {
            assert(haystack@.take(needle@.len() as int)[i as int] != needle@[i as int]);
            return false;
        }
        i += 1;
    }
    assert(haystack@.take(needle@.len() as int) =~= needle@);
    true
}

/// The first position at or after `from` where `marker` occurs in `s`.
pub open spec fn is_first_marker_at(s: Seq<u8>, marker: Seq<u8>, from: int, i: int) -> bool {
    &&& from <= i
    &&& i + marker.len() <= s.len()
    &&& s.subrange(i, i + marker.len()) == marker
    &&& forall|j: int| from <= j < i ==> #[trigger] s.subrange(j, j + marker.len()) != marker
}

/// There is no occurrence of `marker` in `s` at or after `from`.
pub open spec fn no_marker_from(s: Seq<u8>, marker: Seq<u8>, from: int) -> bool {
    forall|j: int| from <= j && j + marker.len() <= s.len() ==> #[trigger] s.subrange(j, j + marker.len()) != marker
}

/// What `make_https_443_url` yields for `input` with room for `cap` bytes:
/// the same URL with its first `:3443` port (after the scheme) removed, so
/// that it names the default HTTPS port.
pub open spec fn spec_https_443_url(input: Seq<u8>, cap: int) -> Result<Seq<u8>, EfiStatus> {
    if input.len() <= 8 || !has_prefix(input, https_prefix()) {
        Err(EfiStatus(EFI_UNSUPPORTED))
    } else if exists|i: int| is_first_marker_at(input, port_3443_marker(), 8, i) {
        let i = choose|i: int| is_first_marker_at(input, port_3443_marker(), 8, i);
        let url = input.take(i) + input.skip(i + 5);
        if url.len() <= cap {
            Ok(url)
        } else {
            Err(EfiStatus(EFI_BUFFER_TOO_SMALL))
        }
    } else {
        Err(EfiStatus(EFI_UNSUPPORTED))
    }
}

proof fn lemma_first_marker_unique(s: Seq<u8>, marker: Seq<u8>, from: int, i: int, k: int)
    requires
        is_first_marker_at(s, marker, from, i),
        is_first_marker_at(s, marker, from, k),
    ensures
        i == k,
{
    if i < k {
        assert(s.subrange(i, i + marker.len()) != marker);
    } else if k < i {
        assert(s.subrange(k, k + marker.len()) != marker);
    }
}

/// Rewrites `https://host:3443/path` into `https://host/path` in `out`,
/// returning the length written.
pub fn make_https_443_url(input: &[u8], out: &mut [u8]) -> (r: Result<usize, EfiStatus>)
    ensures
        final(out)@.len() == old(out)@.len(),
        match (r, spec_https_443_url(input@, old(out)@.len() as int)) {
            (Ok(n), Ok(url)) => n == url.len() && final(out)@.take(n as int) == url
                && final(out)@.skip(n as int) == old(out)@.skip(n as int),
            (Err(e), Err(f)) => e == f,
            _ => false,
        },
{
    let prefix = https_prefix_bytes();
    let port = port_3443_marker_bytes();
    if input.len() <= 8 || !starts_with(input, &prefix) {
        return Err(EfiStatus(EFI_UNSUPPORTED));
    }
    let ghost s = input@;
    assert(input@.len() > 8 && has_prefix(s, https_prefix()));
    let mut i: usize = 8;
    while i <= input.len() && input.len() - i >= 6
        invariant
            8 <= i,
            s == input@,
            input@.len() > 8 && has_prefix(s, https_prefix()),
            port@ == port_3443_marker(),
            out@ == old(out)@,
            forall|j: int| 8 <= j < i ==> #[trigger] s.subrange(j, j + 6) != port_3443_marker(),
        decreases input@.len() - i,
    {
        if starts_with(&input[i..input.len()], &port) {
            assert(s.subrange(i as int, s.len() as int).take(6) =~= s.subrange(i as int, i + 6));
            assert(is_first_marker_at(s, port_3443_marker(), 8, i as int));
            let ghost url = s.take(i as int) + s.skip(i + 5);
            proof {
                let k = choose|k: int| is_first_marker_at(s, port_3443_marker(), 8, k);
                lemma_first_marker_unique(s, port_3443_marker(), 8, i as int, k);
                assert(input@.len() > 8 && has_prefix(s, https_prefix()));
            }
            let mut n: usize = 0;
            while n < i
                invariant
                    i + 6 <= input@.len(),
                    s == input@,
                    url == s.take(i as int) + s.skip(i + 5),
                    spec_https_443_url(s, old(out)@.len() as int) == (if url.len() <= old(out)@.len() {
                        Ok::<Seq<u8>, EfiStatus>(url)
                    } else {
                        Err(EfiStatus(EFI_BUFFER_TOO_SMALL))
                    }),
                    n <= i,
                    n <= out@.len(),
                    out@.len() == old(out)@.len(),
                    forall|j: int| 0 <= j < n ==> out@[j] == s[j],
                    forall|j: int| n <= j < out@.len() ==> out@[j] == old(out)@[j],
                decreases i - n,
            {
                if n >= out.len() {
                    assert(url.len() > old(out)@.len());
                    return Err(EfiStatus(EFI_BUFFER_TOO_SMALL));
                }
                out[n] = input[n];
                n += 1;
            }
            let path_start = i + 6 - 1;
            let mut j = path_start;
            while j < input.len()
                invariant
                    i + 5 == path_start,
                    i + 6 <= input@.len(),
                    url == s.take(i as int) + s.skip(i + 5),
                    spec_https_443_url(s, old(out)@.len() as int) == (if url.len() <= old(out)@.len() {
                        Ok::<Seq<u8>, EfiStatus>(url)
                    } else {
                        Err(EfiStatus(EFI_BUFFER_TOO_SMALL))
                    }),
                    path_start <= j <= input@.len(),
                    s == input@,
                    n == i + (j - path_start),
                    n <= out@.len(),
                    out@.len() == old(out)@.len(),
                    forall|k: int| 0 <= k < i ==> out@[k] == s[k],
                    forall|k: int| i <= k < n ==> out@[k] == s[k + 5],
                    forall|k: int| n <= k < out@.len() ==> out@[k] == old(out)@[k],
                decreases input@.len() - j,
            {
                if n >= out.len() {
                    assert(url.len() > old(out)@.len());
                    return Err(EfiStatus(EFI_BUFFER_TOO_SMALL));
                }
                out[n] = input[j];
                n += 1;
                j += 1;
            }
            assert(out@.take(n as int) =~= url);
            assert(out@.skip(n as int) =~= old(out)@.skip(n as int));
            return Ok(n);
        }
        assert(s.subrange(i as int, s.len() as int).take(6) =~= s.subrange(i as int, i + 6));
        i += 1;
    }
    assert(!exists|k: int| is_first_marker_at(s, port_3443_marker(), 8, k));
    Err(EfiStatus(EFI_UNSUPPORTED))
}

/// The first `/` at or after the scheme: where the path of an `https://` URL begins.
pub open spec fn is_first_slash_after_scheme(url: Seq<u8>, i: int) -> bool {
    &&& 8 <= i < url.len()
    &&& url[i] == 0x2f
    &&& forall|j: int| 8 <= j < i ==> url[j] != 0x2f
}

/// The path of an `https://` URL, from its first `/` after the scheme to the end.
pub open spec fn spec_https_path(url: Seq<u8>) -> Result<Seq<u8>, EfiStatus> {
    if !has_prefix(url, https_prefix()) {
        Err(EfiStatus(EFI_UNSUPPORTED))
    } else if exists|i: int| is_first_slash_after_scheme(url, i) {
        let i = choose|i: int| is_first_slash_after_scheme(url, i);
        Ok(url.skip(i))
    } else {
        Err(EfiStatus(EFI_UNSUPPORTED))
    }
}

/// The absolute path of an `https://` URL.
pub fn https_path_from_url<'a>(url: &'a [u8]) -> (r: Result<&'a [u8], EfiStatus>)
    ensures
        match (r, spec_https_path(url@)) {
            (Ok(p), Ok(q)) => p@ == q,
            (Err(e), Err(f)) => e == f,
            _ => false,
        },
{
    let prefix = https_prefix_bytes();
    if !starts_with(url, &prefix) {
        return Err(EfiStatus(EFI_UNSUPPORTED));
    }
    let mut i: usize = 8;
    while i < url.len()
        invariant
            8 <= i,
            has_prefix(url@, https_prefix()),
            forall|j: int| 8 <= j < i ==> url@[j] != 0x2f,
        decreases url@.len() - i,
    {
        if url[i] == 0x2f {
            assert(is_first_slash_after_scheme(url@, i as int));
            proof {
                let k = choose|k: int| is_first_slash_after_scheme(url@, k);
                assert(k == i);
            }
            return Ok(&url[i..url.len()]);
        }
        i += 1;
    }
    Err(EfiStatus(EFI_UNSUPPORTED))
}

proof fn lemma_first_slash_unique(url: Seq<u8>, i: int, k: int)
    requires
        is_first_slash_after_scheme(url, i),
        is_first_slash_after_scheme(url, k),
    ensures
        i == k,
{
    if i < k {
        assert(url[i] != 0x2f);
    } else if k < i {
        assert(url[k] != 0x2f);
    }
}

proof fn lemma_https_path_at(url: Seq<u8>, i: int)
    requires
        has_prefix(url, https_prefix()),
        is_first_slash_after_scheme(url, i),
    ensures
        spec_https_path(url) == Ok::<Seq<u8>, EfiStatus>(url.skip(i)),
{
    let j = choose|j: int| is_first_slash_after_scheme(url, j);
    lemma_first_slash_unique(url, i, j);
}

/// Removing the `:3443` port leaves the request path alone: when the port
/// ends the host part (the first `/` after the scheme follows it), the URL
/// that `make_https_443_url` yields has the same path as the URL it was
/// given.
pub proof fn law_default_port_keeps_path(input: Seq<u8>, cap: int, i: int)
    requires
        spec_https_443_url(input, cap) is Ok,
        is_first_marker_at(input, port_3443_marker(), 8, i),
        is_first_slash_after_scheme(input, i + 5),
    ensures
        spec_https_path(spec_https_443_url(input, cap).unwrap()) == spec_https_path(input),
        spec_https_path(input) == Ok::<Seq<u8>, EfiStatus>(input.skip(i + 5)),
{
    let m = choose|m: int| is_first_marker_at(input, port_3443_marker(), 8, m);
    lemma_first_marker_unique(input, port_3443_marker(), 8, i, m);
    let url = input.take(i) + input.skip(i + 5);
    assert(spec_https_443_url(input, cap).unwrap() == url);
    lemma_https_path_at(input, i + 5);
    assert(url.take(8) =~= input.take(8));
    assert(url[i] == input[i + 5]);
    assert forall|j: int| 8 <= j < i implies url[j] != 0x2f by {
        assert(url[j] == input[j]);
    }
    lemma_https_path_at(url, i);
    assert(url.skip(i) =~= input.skip(i + 5));
}

} // verus!
