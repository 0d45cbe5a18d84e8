//! The kernel image as it is downloaded: where it may be placed, how it
//! grows chunk by chunk, and its 32-bit byte-sum checksum.
use vstd::prelude::*;
use crate::status::{EfiStatus, EFI_DEVICE_ERROR, EFI_UNSUPPORTED};
use crate::memory::{page_count, EFI_PAGE_SIZE};

verus! {

/// The largest kernel the loader accepts: 256 MiB.
pub const MAX_KERNEL_SIZE: u64 = 0x1000_0000;

/// The most bytes asked of the firmware HTTP client at once.
pub const KERNEL_CHUNK: usize = 16384;

/// The firmware HTTP client's code for status 200.
pub const HTTP_STATUS_200_OK: u32 = 3;

/// The sum of all bytes of `s`.
pub open spec fn byte_sum(s: Seq<u8>) -> nat
    decreases s.len(),
{
    if s.len() == 0 {
        0
    } else {
        byte_sum(s.drop_last()) + s.last() as nat
    }
}

/// The 32-bit wrapping byte sum of `s`, as the loader reports it.
pub open spec fn checksum32(s: Seq<u8>) -> u32 {
    (byte_sum(s) % 0x1_0000_0000) as u32
}

/// A kernel of `kernel_size` bytes can be loaded at `kernel_load_addr`: it
/// is not empty, not above `MAX_KERNEL_SIZE`, and the address is page-aligned.
pub open spec fn kernel_placement_ok(kernel_size: u64, kernel_load_addr: u64) -> bool {
    0 < kernel_size <= MAX_KERNEL_SIZE && kernel_load_addr % 4096 == 0
}

/// The number of pages to reserve for the kernel, or `EFI_UNSUPPORTED`
/// when it cannot be placed as the manifest asks.
pub fn check_kernel_placement(kernel_size: u64, kernel_load_addr: u64) -> (r: Result<usize, EfiStatus>)
    ensures
        kernel_placement_ok(kernel_size, kernel_load_addr) ==> r == Ok::<usize, EfiStatus>(
            ((kernel_size + 4095) / 4096) as usize,
        ),
        !kernel_placement_ok(kernel_size, kernel_load_addr) ==> r == Err::<usize, EfiStatus>(
            EfiStatus(EFI_UNSUPPORTED),
        ),
{
    if kernel_size == 0 || kernel_size > MAX_KERNEL_SIZE {
        return Err(EfiStatus(EFI_UNSUPPORTED));
    }
    if kernel_load_addr % (EFI_PAGE_SIZE as u64) != 0 {
        return Err(EfiStatus(EFI_UNSUPPORTED));
    }
    Ok(page_count(kernel_size))
}

/// The kernel bytes received so far, with their count and checksum.
pub struct KernelImage {
    kernel_size: u64,
    downloaded: u64,
    checksum: u32,
    bytes: Ghost<Seq<u8>>,
}

impl KernelImage {
    /// The bytes received so far.
    pub closed spec fn image(&self) -> Seq<u8> {
        self.bytes@
    }

    /// The size the manifest announced.
    pub closed spec fn size(&self) -> nat {
        self.kernel_size as nat
    }

    pub closed spec fn wf(&self) -> bool {
        &&& 0 < self.kernel_size <= MAX_KERNEL_SIZE
        &&& self.downloaded as nat == self.bytes@.len()
        &&& self.downloaded <= self.kernel_size
        &&& self.checksum == checksum32(self.bytes@)
    }

    /// A well-formed image is of a kernel of at least one byte, and holds
    /// no more bytes than that.
    pub proof fn lemma_wf_bounds(&self)
        requires
            self.wf(),
        ensures
            0 < self.size() <= MAX_KERNEL_SIZE,
            self.image().len() <= self.size(),
    {
    }

    /// An empty image of a kernel of `kernel_size` bytes.
    pub fn new(kernel_size: u64) -> (r: KernelImage)
        requires
            0 < kernel_size <= MAX_KERNEL_SIZE,
        ensures
            r.wf(),
            r.size() == kernel_size,
            r.image() == Seq::<u8>::empty(),
    {
        KernelImage { kernel_size, downloaded: 0, checksum: 0, bytes: Ghost(Seq::empty()) }
    }

    /// The number of bytes received.
    pub fn downloaded(&self) -> (r: u64)
        requires
            self.wf(),
        ensures
            r == self.image().len(),
    {
        self.downloaded
    }

    /// The size the manifest announced.
    pub fn kernel_size(&self) -> (r: u64)
        requires
            self.wf(),
        ensures
            r == self.size(),
    {
        self.kernel_size
    }

    /// The 32-bit byte sum of the bytes received.
    pub fn checksum(&self) -> (r: u32)
        requires
            self.wf(),
        ensures
            r == checksum32(self.image()),
    {
        self.checksum
    }

    /// Whether every byte of the kernel has arrived.
    pub fn is_complete(&self) -> (r: bool)
        requires
            self.wf(),
        ensures
            r == (self.image().len() == self.size()),
            self.image().len() <= self.size(),
    {
        self.downloaded >= self.kernel_size
    }

    /// The number of bytes still to come.
    pub fn remaining(&self) -> (r: usize)
        requires
            self.wf(),
        ensures
            r == self.size() - self.image().len(),
    {
        (self.kernel_size - self.downloaded) as usize
    }

    /// Adds `bytes` to the image.
    pub fn append(&mut self, bytes: &[u8])
        requires
            old(self).wf(),
            old(self).image().len() + bytes@.len() <= old(self).size(),
        ensures
            final(self).wf(),
            final(self).size() == old(self).size(),
            final(self).image() == old(self).image() + bytes@,
    {
        let mut i: usize = 0;
        while i < bytes.len()
            invariant
                self.wf(),
                self.size() == old(self).size(),
                i <= bytes@.len(),
                self.image() == old(self).image() + bytes@.take(i as int),
                old(self).image().len() + bytes@.len() <= self.size(),
            decreases bytes@.len() - i,
        {
            let b = bytes[i];
            let ghost before = self.bytes@;
            self.checksum = self.checksum.wrapping_add(b as u32);
            self.downloaded = self.downloaded + 1;
            self.bytes = Ghost(self.bytes@.push(b));
            proof {
                assert(self.bytes@.drop_last() =~= before);
                assert(self.checksum == checksum32(self.bytes@));
            }
            i += 1;
            assert(bytes@.take(i as int) =~= bytes@.take(i - 1).push(b));
        }
        assert(bytes@.take(i as int) =~= bytes@);
    }

    /// How many bytes to ask the firmware HTTP client for next.
    pub fn next_chunk_len(&self) -> (r: usize)
        requires
            self.wf(),
        ensures
            r == if self.size() - self.image().len() < KERNEL_CHUNK {
                self.size() - self.image().len()
            } else {
                KERNEL_CHUNK as int
            },
    {
        let remaining = self.remaining();
        if remaining < KERNEL_CHUNK {
            remaining
        } else {
            KERNEL_CHUNK
        }
    }

    /// Takes one response of the firmware HTTP client: `status`, its HTTP
    /// status code, and the body bytes it delivered. A failed response, one
    /// that is not 200, or an empty body ends the download with an error.
    pub fn accept_chunk(&mut self, status: EfiStatus, http_status: u32, body: &[u8]) -> (r: Result<(), EfiStatus>)
        requires
            old(self).wf(),
            old(self).image().len() + body@.len() <= old(self).size(),
        ensures
            final(self).wf(),
            final(self).size() == old(self).size(),
            status.spec_is_error() ==> r == Err::<(), EfiStatus>(status) && final(self).image() == old(self).image(),
            !status.spec_is_error() && (http_status != HTTP_STATUS_200_OK || body@.len() == 0) ==> r == Err::<(), EfiStatus>(
                EfiStatus(EFI_DEVICE_ERROR),
            ) && final(self).image() == old(self).image(),
            !status.spec_is_error() && http_status == HTTP_STATUS_200_OK && body@.len() > 0 ==> r is Ok
                && final(self).image() == old(self).image() + body@,
    {
        if status.is_error() {
            return Err(status);
        }
        if http_status != HTTP_STATUS_200_OK || body.len() == 0 {
            return Err(EfiStatus(EFI_DEVICE_ERROR));
        }
        self.append(body);
        Ok(())
    }
}

proof fn lemma_byte_sum_concat(a: Seq<u8>, b: Seq<u8>)
    ensures
        byte_sum(a + b) == byte_sum(a) + byte_sum(b),
    decreases b.len(),
{
    if b.len() > 0 {
        lemma_byte_sum_concat(a, b.drop_last());
        assert((a + b).drop_last() =~= a + b.drop_last());
    } else {
        assert(a + b =~= a);
    }
}

/// The kernel checksum is the sum of all bytes modulo 2^32: nothing sums
/// to zero, one byte sums to itself, and the checksum of bytes received in
/// two parts is the wrapping sum of the checksums of the parts.
pub proof fn law_checksum_adds_up(a: Seq<u8>, b: Seq<u8>, x: u8)
    ensures
        checksum32(Seq::empty()) == 0,
        checksum32(seq![x]) == x,
        checksum32(a + b) == (checksum32(a) as int + checksum32(b) as int) % 0x1_0000_0000,
{
    lemma_byte_sum_concat(a, b);
    assert(seq![x].drop_last() =~= Seq::<u8>::empty());
    let sa = byte_sum(a) as int;
    let sb = byte_sum(b) as int;
    assert((sa + sb) % 0x1_0000_0000 == (sa % 0x1_0000_0000 + sb % 0x1_0000_0000) % 0x1_0000_0000) by (nonlinear_arith)
        requires sa >= 0, sb >= 0;
}

} // verus!
