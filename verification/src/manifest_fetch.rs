//! Fetching the manifest: accepting a response of the firmware HTTP
//! client, and assembling the manifest response from decrypted TLS records
//! over the loader's own connection.
use vstd::prelude::*;
use crate::status::{EfiStatus, EFI_BUFFER_TOO_SMALL, EFI_DEVICE_ERROR, EFI_NOT_READY};
use crate::http_wire::{spec_http_body_offset, find_http_body_offset};
use crate::kernel::HTTP_STATUS_200_OK;
use crate::console::push_all;

verus! {

/// The most manifest bytes the loader accepts.
pub const MANIFEST_MAX: usize = 4096;

/// The room for the HTTP response that carries the manifest.
pub const MANIFEST_RESPONSE_CAP: usize = 5120;

/// The most plaintext bytes taken from one decrypted record.
pub const DECRYPTED_CHUNK_MAX: usize = 1024;

/// The most rounds of receiving more before the loader gives up.
pub const MANIFEST_ROUNDS: usize = 4;

/// The TLS session state in which application data flows.
pub const EFI_TLS_SESSION_DATA_TRANSFERRING: u32 = 2;

/// Whether a response of the firmware HTTP client can hold the manifest:
/// it succeeded with status 200 and its body left room for a terminator in
/// a buffer of `MANIFEST_MAX + 1` bytes.
pub fn check_manifest_response(status: EfiStatus, http_status: u32, body_len: usize) -> (r: Result<(), EfiStatus>)
    ensures
        status.spec_is_error() ==> r == Err::<(), EfiStatus>(status),
        !status.spec_is_error() && (http_status != HTTP_STATUS_200_OK || body_len >= MANIFEST_MAX + 1)
            ==> r == Err::<(), EfiStatus>(EfiStatus(EFI_DEVICE_ERROR)),
        !status.spec_is_error() && http_status == HTTP_STATUS_200_OK && body_len < MANIFEST_MAX + 1 ==> r is Ok,
{
    if status.is_error() {
        return Err(status);
    }
    if http_status != HTTP_STATUS_200_OK || body_len >= MANIFEST_MAX + 1 {
        return Err(EfiStatus(EFI_DEVICE_ERROR));
    }
    Ok(())
}

/// `_http_child_tls_config`
pub open spec fn child_tls_suffix() -> Seq<u8> {
    seq![0x5f, 0x68, 0x74, 0x74, 0x70, 0x5f, 0x63, 0x68, 0x69, 0x6c, 0x64, 0x5f, 0x74, 0x6c, 0x73,
        0x5f, 0x63, 0x6f, 0x6e, 0x66, 0x69, 0x67]
}

/// The most bytes of a log label built from another.
pub const LABEL_MAX: usize = 96;

/// The label for the TLS configuration of an HTTP child: `label` followed
/// by `_http_child_tls_config`, cut at 96 bytes.
pub fn child_tls_label(label: &[u8]) -> (r: Vec<u8>)
    ensures
        r@ == (label@ + child_tls_suffix()).take(
            if label@.len() + child_tls_suffix().len() < 96 { (label@.len() + child_tls_suffix().len()) as int } else { 96 },
        ),
{
    let suffix: [u8; 22] = [0x5f, 0x68, 0x74, 0x74, 0x70, 0x5f, 0x63, 0x68, 0x69, 0x6c, 0x64, 0x5f, 0x74,
        0x6c, 0x73, 0x5f, 0x63, 0x6f, 0x6e, 0x66, 0x69, 0x67];
    assert(suffix@ =~= child_tls_suffix());
    let ghost whole = label@ + child_tls_suffix();
    let mut r: Vec<u8> = Vec::new();
    let mut i: usize = 0;
    while i < label.len() && r.len() < LABEL_MAX
        invariant
            whole == label@ + suffix@,
            i <= label@.len(),
            r@ == whole.take(i as int),
            r@.len() == i,
            i <= LABEL_MAX,
        decreases label@.len() - i,
    {
        r.push(label[i]);
        i += 1;
        assert(whole.take(i as int) =~= whole.take(i - 1).push(whole[i - 1]));
    }
    let mut j: usize = 0;
    while j < suffix.len() && r.len() < LABEL_MAX
        invariant
            whole == label@ + suffix@,
            i <= label@.len(),
            (i == label@.len() || r@.len() == LABEL_MAX),
            j <= 22,
            r@.len() <= LABEL_MAX,
            i == label@.len() ==> r@ == whole.take(i + j),
            r@.len() == LABEL_MAX ==> r@ == whole.take(LABEL_MAX as int),
            i < label@.len() ==> j == 0,
        decreases 22 - j,
    {
        r.push(suffix[j]);
        j += 1;
        assert(whole.take(i + j) =~= whole.take(i + j - 1).push(whole[i + j - 1]));
    }
    assert(r@ =~= whole.take(
        if label@.len() + child_tls_suffix().len() < 96 { (label@.len() + child_tls_suffix().len()) as int } else { 96 },
    ));
    r
}

/// The response that carries the manifest, as it arrives in decrypted records.
pub struct ManifestAssembly {
    plain: Vec<u8>,
    rounds: usize,
}

/// What the manifest response `p` holds as body, once the header has ended
/// and some body bytes have come.
pub open spec fn manifest_body(p: Seq<u8>) -> Option<Seq<u8>> {
    match spec_http_body_offset(p, p.len() as int) {
        Some(k) => if k < p.len() { Some(p.skip(k)) } else { None },
        None => None,
    }
}

impl ManifestAssembly {
    /// The response bytes gathered so far.
    pub closed spec fn response(&self) -> Seq<u8> {
        self.plain@
    }

    /// The rounds of receiving more done so far.
    pub closed spec fn rounds_done(&self) -> nat {
        self.rounds as nat
    }

    pub closed spec fn wf(&self) -> bool {
        self.plain@.len() <= MANIFEST_RESPONSE_CAP && self.rounds < MANIFEST_ROUNDS
    }

    /// Nothing received yet.
    pub fn new() -> (r: ManifestAssembly)
        ensures
            r.wf(),
            r.response() == Seq::<u8>::empty(),
            r.rounds_done() == 0,
    {
        ManifestAssembly { plain: Vec::new(), rounds: 0 }
    }

    /// Takes a decrypted record: `status` and the plaintext, of which the
    /// first 1024 bytes count. Fails on a decryption error or when the
    /// response outgrows `MANIFEST_RESPONSE_CAP`; otherwise returns the body
    /// once the header has ended and some body has come (`manifest_body`).
    pub fn on_decrypted(&mut self, status: EfiStatus, plain: &[u8]) -> (r: Result<Option<Vec<u8>>, EfiStatus>)
        requires
            old(self).wf(),
        ensures
            final(self).rounds_done() == old(self).rounds_done(),
            status.spec_is_error() ==> r == Err::<Option<Vec<u8>>, EfiStatus>(status) && final(self).wf()
                && final(self).response() == old(self).response(),
            !status.spec_is_error() ==> {
                let taken = plain@.take(if plain@.len() < 1024 { plain@.len() as int } else { 1024 });
                if old(self).response().len() + taken.len() > MANIFEST_RESPONSE_CAP {
                    &&& r == Err::<Option<Vec<u8>>, EfiStatus>(EfiStatus(EFI_BUFFER_TOO_SMALL))
                    &&& final(self).wf()
                    &&& final(self).response() == old(self).response()
                } else {
                    &&& final(self).wf()
                    &&& final(self).response() == old(self).response() + taken
                    &&& match (r, manifest_body(final(self).response())) {
                        (Ok(Some(b)), Some(c)) => b@ == c,
                        (Ok(None), None) => true,
                        _ => false,
                    }
                }
            },
    {
        if status.is_error() {
            return Err(status);
        }
        let take = if plain.len() < DECRYPTED_CHUNK_MAX { plain.len() } else { DECRYPTED_CHUNK_MAX };
        if take > 0 {
            if self.plain.len() + take > MANIFEST_RESPONSE_CAP {
                return Err(EfiStatus(EFI_BUFFER_TOO_SMALL));
            }
            push_all(&mut self.plain, &plain[0..take]);
        }
        proof {
            assert(plain@.subrange(0, take as int) =~= plain@.take(take as int));
            if take == 0 {
                assert(self.plain@ =~= old(self).plain@ + plain@.take(0));
            }
        }
        match find_http_body_offset(self.plain.as_slice(), self.plain.len()) {
            Some(k) => {
                if k < self.plain.len() {
                    let body = vstd::slice::slice_to_vec(&self.plain.as_slice()[k..self.plain.len()]);
                    assert(body@ =~= self.plain@.skip(k as int));
                    Ok(Some(body))
                } else {
                    Ok(None)
                }
            },
            None => Ok(None),
        }
    }

    /// Counts a round of waiting for more; after the fourth the loader
    /// gives up with `EFI_NOT_READY`.
    pub fn next_round(&mut self) -> (r: Result<(), EfiStatus>)
        requires
            old(self).wf(),
        ensures
            final(self).response() == old(self).response(),
            old(self).rounds_done() + 1 >= MANIFEST_ROUNDS ==> r == Err::<(), EfiStatus>(EfiStatus(EFI_NOT_READY)),
            old(self).rounds_done() + 1 < MANIFEST_ROUNDS ==> r is Ok && final(self).wf()
                && final(self).rounds_done() == old(self).rounds_done() + 1,
    {
        if self.rounds + 1 >= MANIFEST_ROUNDS {
            return Err(EfiStatus(EFI_NOT_READY));
        }
        self.rounds = self.rounds + 1;
        Ok(())
    }
}

} // verus!
