//! The request line of the static HTTPS boot server: method, target and
//! version, separated by whitespace.
use vstd::prelude::*;

verus! {

/// The length of the whitespace character that begins at `i` of the UTF-8
/// text `s`, or 0 when none does. Whitespace is what Unicode calls White
/// Space: tab, line feed, vertical tab, form feed, carriage return, space,
/// U+0085, U+00A0, U+1680, U+2000 to U+200A, U+2028, U+2029, U+202F, U+205F
/// and U+3000.
pub open spec fn ws_len(s: Seq<u8>, i: int) -> int {
    if i < 0 || i >= s.len() {
        0
    } else if (0x09 <= s[i] <= 0x0d) || s[i] == 0x20 {
        1
    } else if s[i] == 0xc2 && i + 1 < s.len() && (s[i + 1] == 0x85 || s[i + 1] == 0xa0) {
        2
    } else if i + 2 < s.len() && ((s[i] == 0xe1 && s[i + 1] == 0x9a && s[i + 2] == 0x80) || (s[i] == 0xe2
        && s[i + 1] == 0x80 && ((0x80 <= s[i + 2] <= 0x8a) || s[i + 2] == 0xa8 || s[i + 2] == 0xa9
        || s[i + 2] == 0xaf)) || (s[i] == 0xe2 && s[i + 1] == 0x81 && s[i + 2] == 0x9f) || (s[i] == 0xe3
        && s[i + 1] == 0x80 && s[i + 2] == 0x80)) {
        3
    } else {
        0
    }
}

/// The first position at or after `i` that does not begin whitespace.
pub open spec fn skip_space(s: Seq<u8>, i: int) -> int
    decreases s.len() - i,
{
    if 0 <= i < s.len() && ws_len(s, i) > 0 {
        skip_space(s, i + ws_len(s, i))
    } else {
        i
    }
}

/// The end of the word that begins at `i`: the first position after it
/// that begins whitespace, or the end of `s`.
pub open spec fn word_end(s: Seq<u8>, i: int) -> int
    decreases s.len() - i,
{
    if 0 <= i < s.len() && ws_len(s, i) == 0 {
        word_end(s, i + 1)
    } else {
        i
    }
}

/// The words of `s` from `i` on: the maximal runs without whitespace.
pub open spec fn words_from(s: Seq<u8>, i: int) -> Seq<Seq<u8>>
    decreases s.len() - i,
{
    let a = skip_space(s, i);
    let b = word_end(s, a);
    if a < i || a >= s.len() || b <= a || b > s.len() {
        Seq::empty()
    } else {
        seq![s.subrange(a, b)] + words_from(s, b)
    }
}

proof fn lemma_skip_space(s: Seq<u8>, i: int)
    requires
        0 <= i <= s.len(),
    ensures
        i <= skip_space(s, i) <= s.len(),
        skip_space(s, i) < s.len() ==> ws_len(s, skip_space(s, i)) == 0,
    decreases s.len() - i,
{
    if 0 <= i < s.len() && ws_len(s, i) > 0 {
        lemma_skip_space(s, i + ws_len(s, i));
    }
}

proof fn lemma_word_end(s: Seq<u8>, i: int)
    requires
        0 <= i <= s.len(),
    ensures
        i <= word_end(s, i) <= s.len(),
        i < s.len() && ws_len(s, i) == 0 ==> i < word_end(s, i),
    decreases s.len() - i,
{
    if 0 <= i < s.len() && ws_len(s, i) == 0 {
        lemma_word_end(s, i + 1);
    }
}

fn space_len(s: &[u8], i: usize) -> (r: usize)
    requires
        i < s@.len(),
    ensures
        r == ws_len(s@, i as int),
{
    let b = s[i];
    if (b >= 0x09 && b <= 0x0d) || b == 0x20 {
        1
    } else if b == 0xc2 && s.len() - i > 1 && (s[i + 1] == 0x85 || s[i + 1] == 0xa0) {
        2
    } else if s.len() - i > 2 && ((b == 0xe1 && s[i + 1] == 0x9a && s[i + 2] == 0x80) || (b == 0xe2
        && s[i + 1] == 0x80 && ((s[i + 2] >= 0x80 && s[i + 2] <= 0x8a) || s[i + 2] == 0xa8
        || s[i + 2] == 0xa9 || s[i + 2] == 0xaf)) || (b == 0xe2 && s[i + 1] == 0x81 && s[i + 2] == 0x9f)
        || (b == 0xe3 && s[i + 1] == 0x80 && s[i + 2] == 0x80)) {
        3
    } else {
        0
    }
}

/// The next word at or after `i`: where it begins and ends.
fn next_word(s: &[u8], i: usize) -> (r: Option<(usize, usize)>)
    requires
        i <= s@.len(),
    ensures
        match r {
            Some((a, b)) => a == skip_space(s@, i as int) && b == word_end(s@, a as int) && i <= a < b <= s@.len()
                && words_from(s@, i as int) == seq![s@.subrange(a as int, b as int)] + words_from(s@, b as int),
            None => words_from(s@, i as int) == Seq::<Seq<u8>>::empty(),
        },
{
    let mut a = i;
    while a < s.len()
        invariant
            i <= a <= s@.len(),
            skip_space(s@, i as int) == skip_space(s@, a as int),
        ensures
            i <= a <= s@.len(),
            skip_space(s@, i as int) == a,
        decreases s@.len() - a,
    {
        let w = space_len(s, a);
        if w == 0 {
            break;
        }
        a = a + w;
    }
    proof {
        lemma_skip_space(s@, i as int);
    }
    if a >= s.len() {
        return None;
    }
    let mut b = a;
    while b < s.len()
        invariant
            a <= b <= s@.len(),
            word_end(s@, a as int) == word_end(s@, b as int),
        ensures
            a <= b <= s@.len(),
            word_end(s@, a as int) == b,
        decreases s@.len() - b,
    {
        if space_len(s, b) != 0 {
            break;
        }
        b = b + 1;
    }
    proof {
        lemma_word_end(s@, a as int);
    }
    assert(words_from(s@, i as int) == seq![s@.subrange(a as int, b as int)] + words_from(s@, b as int));
    Some((a, b))
}

/// `GET`
pub open spec fn get_method() -> Seq<u8> {
    seq![0x47, 0x45, 0x54]
}

/// `HEAD`
pub open spec fn head_method() -> Seq<u8> {
    seq![0x48, 0x45, 0x41, 0x44]
}

/// `HTTP/1.`
pub open spec fn http1_version_prefix() -> Seq<u8> {
    seq![0x48, 0x54, 0x54, 0x50, 0x2f, 0x31, 0x2e]
}

/// A request the boot server can answer.
#[derive(Debug, PartialEq, Eq)]
pub enum HttpBootRequest<'a> {
    /// A GET of this path.
    Get(&'a [u8]),
    /// A HEAD of this path.
    Head(&'a [u8]),
    /// A method other than GET and HEAD.
    MethodNotAllowed,
    /// A request line that is not HTTP/1.x with three parts.
    BadRequest,
}

/// A request line too short to be answered at all.
#[derive(Debug, Clone, Copy, PartialEq, Eq)]
pub enum RequestLineError {
    /// The line holds no words.
    EmptyRequest,
    /// The line holds a method only.
    MissingTarget,
    /// The line holds no version.
    MissingVersion,
}

/// The path of a request target: what precedes its first `?`.
pub open spec fn target_path(target: Seq<u8>) -> Seq<u8> {
    if exists|k: int| 0 <= k < target.len() && target[k] == 0x3f {
        target.take(choose|k: int| 0 <= k < target.len() && target[k] == 0x3f
            && forall|j: int| 0 <= j < k ==> target[j] != 0x3f)
    } else {
        target
    }
}

/// The request that a request line asks for.
pub enum SpecRequest {
    Get(Seq<u8>),
    Head(Seq<u8>),
    MethodNotAllowed,
    BadRequest,
}

/// What `parse_request_line` makes of `line`.
pub open spec fn spec_parse_request_line(line: Seq<u8>) -> Result<SpecRequest, RequestLineError> {
    let w = words_from(line, 0);
    if w.len() == 0 {
        Err(RequestLineError::EmptyRequest)
    } else if w.len() == 1 {
        Err(RequestLineError::MissingTarget)
    } else if w.len() == 2 {
        Err(RequestLineError::MissingVersion)
    } else if !(w[2].len() >= 7 && w[2].take(7) == http1_version_prefix()) || w.len() > 3 {
        Ok(SpecRequest::BadRequest)
    } else if w[0] == get_method() {
        Ok(SpecRequest::Get(target_path(w[1])))
    } else if w[0] == head_method() {
        Ok(SpecRequest::Head(target_path(w[1])))
    } else {
        Ok(SpecRequest::MethodNotAllowed)
    }
}

/// The request as its model.
pub open spec fn request_model(r: HttpBootRequest) -> SpecRequest {
    match r {
        HttpBootRequest::Get(p) => SpecRequest::Get(p@),
        HttpBootRequest::Head(p) => SpecRequest::Head(p@),
        HttpBootRequest::MethodNotAllowed => SpecRequest::MethodNotAllowed,
        HttpBootRequest::BadRequest => SpecRequest::BadRequest,
    }
}

fn bytes_equal(a: &[u8], b: &[u8]) -> (r: bool)
    ensures
        r == (a@ == b@),
{
    if a.len() != b.len() {
        return false;
    }
    let mut i: usize = 0;
    while i < a.len()
        invariant
            a@.len() == b@.len(),
            i <= a@.len(),
            forall|j: int| 0 <= j < i ==> a@[j] == b@[j],
        decreases a@.len() - i,
    {
        if a[i] != b[i] {
            return false;
        }
        i += 1;
    }
    assert(a@ =~= b@);
    true
}

fn path_before_query(target: &[u8]) -> (r: &[u8])
    ensures
        r@ == target_path(target@),
{
    let mut k: usize = 0;
    while k < target.len()
        invariant
            k <= target@.len(),
            forall|j: int| 0 <= j < k ==> target@[j] != 0x3f,
        decreases target@.len() - k,
    {
        if target[k] == 0x3f {
            proof {
                let c = choose|c: int| 0 <= c < target@.len() && target@[c] == 0x3f
                    && forall|j: int| 0 <= j < c ==> target@[j] != 0x3f;
                assert(0 <= k < target@.len() && target@[k as int] == 0x3f
                    && forall|j: int| 0 <= j < k ==> target@[j] != 0x3f);
                if c < k {
                } else if k < c {
                    assert(target@[k as int] != 0x3f);
                }
            }
            let r = &target[0..k];
            assert(r@ =~= target@.take(k as int));
            return r;
        }
        k += 1;
    }
    target
}

/// Reads the request line `line` (its bytes, trailing line end included or
/// not): the method, the target, whose path is what precedes its first `?`,
/// and an `HTTP/1.x` version, with nothing after.
pub fn parse_request_line<'a>(line: &'a [u8]) -> (r: Result<HttpBootRequest<'a>, RequestLineError>)
    ensures
        match (r, spec_parse_request_line(line@)) {
            (Ok(a), Ok(b)) => request_model(a) == b,
            (Err(e), Err(f)) => e == f,
            _ => false,
        },
{
    let (m0, m1) = match next_word(line, 0) {
        Some(w) => w,
        None => return Err(RequestLineError::EmptyRequest),
    };
    let (t0, t1) = match next_word(line, m1) {
        Some(w) => w,
        None => return Err(RequestLineError::MissingTarget),
    };
    let (v0, v1) = match next_word(line, t1) {
        Some(w) => w,
        None => return Err(RequestLineError::MissingVersion),
    };
    let ghost w = words_from(line@, 0);
    let method = &line[m0..m1];
    let target = &line[t0..t1];
    let version = &line[v0..v1];
    assert(w[0] == method@ && w[1] == target@ && w[2] == version@);
    let prefix: [u8; 7] = [0x48, 0x54, 0x54, 0x50, 0x2f, 0x31, 0x2e];
    assert(prefix@ =~= http1_version_prefix());
    let is_http1 = version.len() >= 7 && bytes_equal(&version[0..7], &prefix);
    if version.len() >= 7 {
        assert(version@.subrange(0, 7) =~= version@.take(7));
    }
    if !is_http1 {
        return Ok(HttpBootRequest::BadRequest);
    }
    if next_word(line, v1).is_some() {
        return Ok(HttpBootRequest::BadRequest);
    }
    assert(w.len() == 3);
    let path = path_before_query(target);
    let get: [u8; 3] = [0x47, 0x45, 0x54];
    let head: [u8; 4] = [0x48, 0x45, 0x41, 0x44];
    assert(get@ =~= get_method());
    assert(head@ =~= head_method());
    if bytes_equal(method, &get) {
        Ok(HttpBootRequest::Get(path))
    } else if bytes_equal(method, &head) {
        Ok(HttpBootRequest::Head(path))
    } else {
        Ok(HttpBootRequest::MethodNotAllowed)
    }
}

proof fn lemma_target_path_no_query(t: Seq<u8>)
    ensures
        forall|k: int| 0 <= k < target_path(t).len() ==> target_path(t)[k] != 0x3f,
{
    if exists|k: int| 0 <= k < t.len() && t[k] == 0x3f {
        let f = |k: int| 0 <= k < t.len() && t[k] == 0x3f;
        let k0 = choose|k: int| 0 <= k < t.len() && t[k] == 0x3f;
        assert(f(k0));
        crate::http_wire::lemma_first_witness(f, 0, k0);
        let m = choose|m: int| 0 <= m <= k0 && #[trigger] f(m) && forall|j: int| 0 <= j < m ==> !#[trigger] f(j);
        assert forall|j: int| 0 <= j < m implies t[j] != 0x3f by {
            assert(!f(j));
        }
        assert(0 <= m < t.len() && t[m] == 0x3f && forall|j: int| 0 <= j < m ==> t[j] != 0x3f);
        let c = choose|c: int| 0 <= c < t.len() && t[c] == 0x3f && forall|j: int| 0 <= j < c ==> t[j] != 0x3f;
        assert(target_path(t) == t.take(c));
    }
}

/// The path that a GET or HEAD request hands on holds no `?`: the query
/// is never part of the path that is looked up.
pub proof fn law_request_path_has_no_query(line: Seq<u8>)
    ensures
        spec_parse_request_line(line) matches Ok(SpecRequest::Get(p)) ==> forall|k: int|
            0 <= k < p.len() ==> p[k] != 0x3f,
        spec_parse_request_line(line) matches Ok(SpecRequest::Head(p)) ==> forall|k: int|
            0 <= k < p.len() ==> p[k] != 0x3f,
{
    let w = words_from(line, 0);
    if w.len() >= 2 {
        lemma_target_path_no_query(w[1]);
    }
}

/// The path of a request target is the part before its first `?`: a
/// prefix of the target holding no `?`, followed in the target either by
/// nothing or by a `?`.
pub proof fn law_target_path_is_before_query(t: Seq<u8>)
    ensures
        target_path(t).len() <= t.len(),
        target_path(t) == t.take(target_path(t).len() as int),
        forall|k: int| 0 <= k < target_path(t).len() ==> target_path(t)[k] != 0x3f,
        target_path(t).len() == t.len() || t[target_path(t).len() as int] == 0x3f,
{
    lemma_target_path_no_query(t);
    if exists|k: int| 0 <= k < t.len() && t[k] == 0x3f {
        let f = |k: int| 0 <= k < t.len() && t[k] == 0x3f;
        let k0 = choose|k: int| 0 <= k < t.len() && t[k] == 0x3f;
        assert(f(k0));
        crate::http_wire::lemma_first_witness(f, 0, k0);
        let m = choose|m: int| 0 <= m <= k0 && #[trigger] f(m) && forall|j: int| 0 <= j < m ==> !#[trigger] f(j);
        assert forall|j: int| 0 <= j < m implies t[j] != 0x3f by {
            assert(!f(j));
        }
        assert(0 <= m < t.len() && t[m] == 0x3f && forall|j: int| 0 <= j < m ==> t[j] != 0x3f);
    } else {
        assert(t.take(t.len() as int) =~= t);
    }
}

} // verus!
