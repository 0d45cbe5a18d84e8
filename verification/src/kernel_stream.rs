//! Reassembly of the kernel from a TLS byte stream received over TCP: the
//! decisions of the download loop, as a state machine. The caller performs
//! each action (receive bytes, decrypt a record) and reports what came of it;
//! the machine frames records, strips the HTTP header, and collects the body.
use vstd::prelude::*;
use crate::status::{EfiStatus, EFI_BUFFER_TOO_SMALL, EFI_DEVICE_ERROR, EFI_NOT_READY, EFI_SUCCESS};
use crate::tls_record::{
    spec_find_tls_app_record_start, spec_tls_record_declared_len, app_record_tag_at,
    find_tls_app_record_start, tls_record_declared_len,
};
use crate::http_wire::{spec_http_body_offset, spec_status_is_200, header_end_at,
    find_http_body_offset, http_response_status_is_200, lemma_body_offset_props, lemma_body_offset_is,
    lemma_body_offset_extend};
use crate::kernel::{KernelImage, MAX_KERNEL_SIZE};

verus! {

/// What to do with the unread bytes `avail` of the receive buffer.
#[derive(Clone, Copy, Debug, PartialEq, Eq, Structural)]
pub enum RecordStep {
    /// Drop this many bytes: a record header begins after them.
    Skip(usize),
    /// No record header is in sight: keep this many trailing bytes (at most
    /// four, the start of a header that may be cut off) and receive more.
    CarryTail(usize),
    /// A record begins here but has not fully arrived: keep it and receive more.
    CarryPartial,
    /// A whole record of this length begins here.
    Record(usize),
}

/// The step for the unread bytes `avail`.
#[verifier::opaque]
pub open spec fn spec_record_step(avail: Seq<u8>) -> RecordStep {
    let n = avail.len() as int;
    match spec_tls_record_declared_len(avail, n) {
        Some(r) => if r > n { RecordStep::CarryPartial } else { RecordStep::Record(r as usize) },
        None => match spec_find_tls_app_record_start(avail, n) {
            Some(k) => RecordStep::Skip(k as usize),
            None => RecordStep::CarryTail((if n > 4 { 4 } else { n }) as usize),
        },
    }
}

/// Decides what to do with the unread bytes `avail`.
pub fn record_step(avail: &[u8]) -> (r: RecordStep)
    ensures
        r == spec_record_step(avail@),
        r matches RecordStep::Skip(k) ==> 0 < k < avail@.len(),
        r matches RecordStep::Record(n) ==> 5 <= n <= avail@.len(),
        r matches RecordStep::CarryTail(c) ==> c <= 4 && c <= avail@.len(),
{
    reveal(spec_record_step);
    let n = avail.len();
    match tls_record_declared_len(avail, n) {
        Some(r) => {
            if r > n {
                RecordStep::CarryPartial
            } else {
                RecordStep::Record(r)
            }
        },
        None => match find_tls_app_record_start(avail, n) {
            Some(k) => RecordStep::Skip(k),
            None => RecordStep::CarryTail(if n > 4 { 4 } else { n }),
        },
    }
}

/// The most bytes of HTTP header the loader takes before the body.
pub const HEADER_CAP: usize = 2048;

/// The most times the loader refills an empty receive buffer.
pub const MAX_RECEIVE_ROUNDS: usize = 2048;

/// The next thing the caller of a `KernelStream` does.
pub enum StreamAction {
    /// Receive up to `max_len` bytes and report them with `on_received`;
    /// they are appended to what is kept (`append`) or replace it.
    Receive { append: bool, max_len: usize },
    /// Decrypt this TLS record and report the plaintext with `on_decrypted`.
    Decrypt { record: Vec<u8> },
    /// The download is over, with this status.
    Done(EfiStatus),
}

/// What a `KernelStream` waits for.
#[derive(Clone, Copy, Debug, PartialEq, Eq, Structural)]
pub enum Awaiting {
    Nothing,
    Bytes(usize),
    Plaintext(usize),
}

/// The body of an HTTP response: what follows the first `\r\n\r\n`.
pub open spec fn http_body(plain: Seq<u8>) -> Seq<u8> {
    match spec_http_body_offset(plain, plain.len() as int) {
        Some(k) => plain.skip(k),
        None => Seq::empty(),
    }
}

/// The state of the response `p` read so far: with the header seen, the
/// header is the start of `p` up to the end of its header block and carries
/// status 200, and the image is the start of the body, all of the body
/// received while the image is short of `size`; before that, every byte
/// went into the header, which has not ended.
#[verifier::opaque]
pub open spec fn body_model(p: Seq<u8>, header: Seq<u8>, saw_header: bool, image: Seq<u8>, size: nat) -> bool {
    if saw_header {
        &&& spec_http_body_offset(p, p.len() as int) == Some(header.len() as int)
        &&& header == p.take(header.len() as int)
        &&& spec_status_is_200(header, header.len() as int)
        &&& image == http_body(p).take(image.len() as int)
        &&& image.len() <= http_body(p).len()
        &&& image.len() < size ==> image.len() == http_body(p).len()
    } else {
        &&& header == p
        &&& spec_http_body_offset(p, p.len() as int) is None
        &&& image.len() == 0
    }
}

/// The state of a kernel download over TLS.
pub struct KernelStream {
    rx: Vec<u8>,
    rx_len: usize,
    rx_offset: usize,
    awaiting: Awaiting,
    header: Vec<u8>,
    saw_header: bool,
    image: KernelImage,
    rounds: usize,
    finished: Option<EfiStatus>,
    plain: Ghost<Seq<u8>>,
}

impl KernelStream {
    /// All plaintext decrypted so far: the HTTP response as it arrived.
    pub closed spec fn plaintext(&self) -> Seq<u8> {
        self.plain@
    }

    /// The kernel bytes collected so far.
    pub closed spec fn image(&self) -> Seq<u8> {
        self.image.image()
    }

    /// The announced kernel size.
    pub closed spec fn size(&self) -> nat {
        self.image.size()
    }

    /// The status the download ended with, if it has.
    pub closed spec fn outcome(&self) -> Option<EfiStatus> {
        self.finished
    }

    /// What the stream waits for.
    pub closed spec fn waiting_for(&self) -> Awaiting {
        self.awaiting
    }

    /// The capacity of the receive buffer.
    pub closed spec fn capacity(&self) -> nat {
        self.rx@.len()
    }

    /// The received bytes not yet framed.
    pub closed spec fn unread(&self) -> Seq<u8> {
        self.rx@.subrange(self.rx_offset as int, self.rx_len as int)
    }

    /// The collected image is the start of the HTTP body, which came with
    /// status 200 (see `body_model`).
    pub closed spec fn body_ok(&self) -> bool {
        body_model(self.plain@, self.header@, self.saw_header, self.image.image(), self.image.size())
    }

    pub closed spec fn wf(&self) -> bool {
        &&& self.image.wf()
        &&& self.rx_offset <= self.rx_len <= self.rx@.len()
        &&& self.header@.len() <= HEADER_CAP
        &&& self.rounds <= MAX_RECEIVE_ROUNDS
        &&& match self.awaiting {
            Awaiting::Nothing => true,
            Awaiting::Bytes(m) => self.rx_len + m == self.rx@.len() && self.finished is None,
            Awaiting::Plaintext(n) => 0 < n <= self.rx_len - self.rx_offset && self.finished is None,
        }
        &&& self.finished is None ==> self.body_ok()
        &&& self.finished is None ==> self.image.image().len() < self.image.size()
        &&& (self.finished is Some && !self.finished.unwrap().spec_is_error()) ==> (self.body_ok()
            && self.image.image().len() == self.image.size())
    }

    /// A stream for a kernel of `kernel_size` bytes with a receive buffer of
    /// `capacity` bytes, holding the bytes `initial` received so far.
    pub fn new(kernel_size: u64, capacity: usize, initial: &[u8]) -> (r: KernelStream)
        requires
            0 < kernel_size <= MAX_KERNEL_SIZE,
            initial@.len() <= capacity,
        ensures
            r.wf(),
            r.size() == kernel_size,
            r.capacity() == capacity,
            r.unread() == initial@,
            r.plaintext() == Seq::<u8>::empty(),
            r.image() == Seq::<u8>::empty(),
            r.outcome() is None,
            r.waiting_for() == Awaiting::Nothing,
    {
        let mut rx = vec![0u8; capacity];
        let mut i: usize = 0;
        while i < initial.len()
            invariant
                rx@.len() == capacity,
                initial@.len() <= capacity,
                i <= initial@.len(),
                forall|j: int| 0 <= j < i ==> rx@[j] == initial@[j],
            decreases initial@.len() - i,
        {
            rx.set(i, initial[i]);
            i += 1;
        }
        let r = KernelStream {
            rx,
            rx_len: initial.len(),
            rx_offset: 0,
            awaiting: Awaiting::Nothing,
            header: Vec::new(),
            saw_header: false,
            image: KernelImage::new(kernel_size),
            rounds: 0,
            finished: None,
            plain: Ghost(Seq::empty()),
        };
        proof {
            assert(r.unread() =~= initial@);
            assert(r.header@ =~= r.plain@);
            reveal(body_model);
            reveal(spec_http_body_offset);
        }
        r
    }
}



/// Frames the unread bytes `u` from `s` on: skips ahead to the first record
/// header in sight, and gives where it stopped and what to do there.
pub open spec fn spec_frame(u: Seq<u8>, s: int) -> (int, RecordStep)
    decreases u.len() - s,
{
    if s < 0 || s >= u.len() {
        (s, RecordStep::CarryTail(0))
    } else {
        match spec_record_step(u.skip(s)) {
            RecordStep::Skip(k) => if 0 < k && s + k < u.len() {
                spec_frame(u, s + k)
            } else {
                (s, RecordStep::Skip(k))
            },
            st => (s, st),
        }
    }
}

/// The part of a response that the loader reads as its header: at most
/// `HEADER_CAP` bytes.
pub open spec fn header_window(p: Seq<u8>) -> Seq<u8> {
    p.take(if p.len() < HEADER_CAP { p.len() as int } else { HEADER_CAP as int })
}

/// The number of body bytes the loader keeps of `p`: all of the body, up
/// to the kernel size.
pub open spec fn kept_len(p: Seq<u8>, size: nat) -> int {
    if http_body(p).len() < size { http_body(p).len() as int } else { size as int }
}

/// How a response `p` stands for a kernel of `size` bytes: `None` while the
/// header is still coming; otherwise whether the download ended and how.
pub open spec fn response_verdict(p: Seq<u8>, size: nat) -> Option<Option<EfiStatus>> {
    let h = header_window(p);
    match spec_http_body_offset(h, h.len() as int) {
        Some(k) => if !spec_status_is_200(p.take(k), k) {
            Some(Some(EfiStatus(EFI_DEVICE_ERROR)))
        } else if kept_len(p, size) == size {
            Some(Some(EfiStatus(EFI_SUCCESS)))
        } else {
            Some(None)
        },
        None => if p.len() >= HEADER_CAP {
            Some(Some(EfiStatus(EFI_BUFFER_TOO_SMALL)))
        } else {
            None
        },
    }
}

/// What `next_action` does, from the state `pre` to the state `post` with
/// the action `r`: it reports the outcome once the download is over; with
/// nothing unread it asks for a fresh receive, at most `MAX_RECEIVE_ROUNDS`
/// times and then gives up with `EFI_NOT_READY`; otherwise it frames the
/// unread bytes (see `spec_frame`) and asks for the record found, or for
/// more bytes after keeping what may begin a record.
pub open spec fn spec_next_action(pre: KernelStream, post: KernelStream, r: StreamAction) -> bool {
    let u = pre.unread();
    let cap = pre.capacity();
    match pre.outcome() {
        Some(st) => r == StreamAction::Done(st) && post.outcome() == pre.outcome(),
        None => if u.len() == 0 {
            if pre.receive_rounds() + 1 > MAX_RECEIVE_ROUNDS {
                r == StreamAction::Done(EfiStatus(EFI_NOT_READY)) && post.outcome() == Some(
                    EfiStatus(EFI_NOT_READY),
                )
            } else {
                &&& r == (StreamAction::Receive { append: false, max_len: cap as usize })
                &&& post.unread() == Seq::<u8>::empty()
                &&& post.waiting_for() == Awaiting::Bytes(cap as usize)
                &&& post.receive_rounds() == pre.receive_rounds() + 1
                &&& post.outcome() is None
            }
        } else {
            let (s, step) = spec_frame(u, 0);
            &&& post.receive_rounds() == pre.receive_rounds()
            &&& match step {
                RecordStep::Record(n) => {
                    &&& r matches StreamAction::Decrypt { record } && record@ == u.subrange(s, s + n)
                    &&& post.unread() == u.skip(s)
                    &&& post.waiting_for() == Awaiting::Plaintext(n)
                    &&& post.outcome() is None
                },
                RecordStep::CarryTail(c) => {
                    &&& r == (StreamAction::Receive { append: true, max_len: (cap - c) as usize })
                    &&& post.unread() == u.skip(u.len() - c)
                    &&& post.waiting_for() == Awaiting::Bytes((cap - c) as usize)
                    &&& post.outcome() is None
                },
                RecordStep::CarryPartial => if u.len() - s >= cap {
                    r == StreamAction::Done(EfiStatus(EFI_BUFFER_TOO_SMALL)) && post.outcome() == Some(
                        EfiStatus(EFI_BUFFER_TOO_SMALL),
                    )
                } else {
                    &&& r == (StreamAction::Receive { append: true, max_len: (cap - (u.len() - s)) as usize })
                    &&& post.unread() == u.skip(s)
                    &&& post.waiting_for() == Awaiting::Bytes((cap - (u.len() - s)) as usize)
                    &&& post.outcome() is None
                },
                RecordStep::Skip(_) => false,
            }
        },
    }
}

/// Frames `buf[start..end]`: skips to the first record header in sight and
/// returns where framing stopped and the step there (never a skip).
fn frame(buf: &[u8], start: usize, end: usize) -> (r: (usize, RecordStep))
    requires
        start < end <= buf@.len(),
    ensures
        start <= r.0 < end,
        (r.0 - start, r.1) == spec_frame(buf@.subrange(start as int, end as int), 0),
        !(r.1 is Skip),
        r.1 matches RecordStep::Record(n) ==> 5 <= n <= end - r.0,
        r.1 matches RecordStep::CarryTail(c) ==> c <= 4 && c <= end - r.0,
{
    let ghost u = buf@.subrange(start as int, end as int);
    let mut off = start;
    loop
        invariant
            start <= off < end <= buf@.len(),
            u == buf@.subrange(start as int, end as int),
            spec_frame(u, 0) == spec_frame(u, off - start),
        decreases end - off,
    {
        let step = record_step(&buf[off..end]);
        proof {
            assert(buf@.subrange(off as int, end as int) =~= u.skip(off - start));
        }
        match step {
            RecordStep::Skip(k) => {
                off = off + k;
            },
            _ => {
                return (off, step);
            },
        }
    }
}

/// Moves the `n` bytes at `from` to the front of `rx`.
fn move_to_front(rx: &mut Vec<u8>, from: usize, n: usize)
    requires
        from + n <= old(rx)@.len(),
    ensures
        final(rx)@.len() == old(rx)@.len(),
        final(rx)@.take(n as int) == old(rx)@.subrange(from as int, from + n),
{
    let ghost src = rx@;
    let mut i: usize = 0;
    while i < n
        invariant
            rx@.len() == src.len(),
            src == old(rx)@,
            from + n <= rx.len(),
            i <= n,
            forall|j: int| 0 <= j < i ==> rx@[j] == src[from + j],
            forall|j: int| i <= j < rx@.len() ==> rx@[j] == src[j],
        decreases n - i,
    {
        let b = rx[from + i];
        rx.set(i, b);
        i += 1;
    }
    assert(rx@.take(n as int) =~= src.subrange(from as int, from + n));
}

impl KernelStream {
    /// How often the receive buffer was refilled from empty.
    pub closed spec fn receive_rounds(&self) -> nat {
        self.rounds as nat
    }

    /// The bytes collected so far, with their count and checksum.
    pub fn image_state(&self) -> (r: &KernelImage)
        requires
            self.wf(),
        ensures
            r.wf(),
            r.image() == self.image(),
            r.size() == self.size(),
    {
        &self.image
    }

    /// The length of the HTTP header, once it has been read.
    pub fn header_len(&self) -> (r: Option<usize>)
        requires
            self.wf(),
        ensures
            self.outcome() is None ==> match r {
                Some(k) => spec_http_body_offset(self.plaintext(), self.plaintext().len() as int) == Some(k as int),
                None => spec_http_body_offset(self.plaintext(), self.plaintext().len() as int) is None,
            },
    {
        reveal(body_model);
        if self.saw_header {
            Some(self.header.len())
        } else {
            None
        }
    }

    fn finish(&mut self, st: EfiStatus) -> (r: StreamAction)
        requires
            old(self).image.wf(),
            st.spec_is_error(),
        ensures
            r == StreamAction::Done(st),
            final(self).finished == Some(st),
            final(self).awaiting == Awaiting::Nothing,
            final(self).image == old(self).image,
            final(self).plain == old(self).plain,
            final(self).rx == old(self).rx,
            final(self).rx_len == old(self).rx_len,
            final(self).rx_offset == old(self).rx_offset,
            final(self).header == old(self).header,
            final(self).saw_header == old(self).saw_header,
            final(self).rounds == old(self).rounds,
    {
        self.finished = Some(st);
        self.awaiting = Awaiting::Nothing;
        StreamAction::Done(st)
    }

    /// Decides the next step of the download: the outcome once it is over;
    /// a receive when nothing is unread (at most `MAX_RECEIVE_ROUNDS` times);
    /// otherwise the framing step for the unread bytes (see `spec_frame`).
    #[verifier::rlimit(40)]
    pub fn next_action(&mut self) -> (r: StreamAction)
        requires
            old(self).wf(),
            old(self).waiting_for() == Awaiting::Nothing,
        ensures
            final(self).wf(),
            final(self).size() == old(self).size(),
            final(self).capacity() == old(self).capacity(),
            final(self).image() == old(self).image(),
            final(self).plaintext() == old(self).plaintext(),
            spec_next_action(*old(self), *final(self), r),
    {
        if let Some(st) = self.finished {
            return StreamAction::Done(st);
        }
        if self.rx_offset >= self.rx_len {
            if self.rounds >= MAX_RECEIVE_ROUNDS {
                return self.finish(EfiStatus(EFI_NOT_READY));
            }
            self.rounds = self.rounds + 1;
            self.rx_offset = 0;
            self.rx_len = 0;
            let cap = self.rx.len();
            self.awaiting = Awaiting::Bytes(cap);
            proof {
                assert(self.unread() =~= Seq::<u8>::empty());
            }
            return StreamAction::Receive { append: false, max_len: cap };
        }
        let ghost u = self.unread();
        let (start, step) = frame(self.rx.as_slice(), self.rx_offset, self.rx_len);
        proof {
            assert(self.rx@.subrange(start as int, self.rx_len as int) =~= u.skip(start - self.rx_offset));
        }
        match step {
            RecordStep::CarryTail(c) => {
                let from = self.rx_len - c;
                move_to_front(&mut self.rx, from, c);
                self.rx_offset = 0;
                self.rx_len = c;
                let max_len = self.rx.len() - c;
                self.awaiting = Awaiting::Bytes(max_len);
                proof {
                    assert(self.unread() =~= u.skip(u.len() - c));
                }
                StreamAction::Receive { append: true, max_len }
            },
            RecordStep::CarryPartial => {
                let avail = self.rx_len - start;
                move_to_front(&mut self.rx, start, avail);
                self.rx_offset = 0;
                self.rx_len = avail;
                if avail >= self.rx.len() {
                    return self.finish(EfiStatus(EFI_BUFFER_TOO_SMALL));
                }
                let max_len = self.rx.len() - avail;
                self.awaiting = Awaiting::Bytes(max_len);
                proof {
                    assert(self.unread() =~= u.skip(start - old(self).rx_offset));
                }
                StreamAction::Receive { append: true, max_len }
            },
            RecordStep::Record(n) => {
                self.rx_offset = start;
                let record = vstd::slice::slice_to_vec(&self.rx.as_slice()[start..start + n]);
                self.awaiting = Awaiting::Plaintext(n);
                proof {
                    assert(self.unread() =~= u.skip(start - old(self).rx_offset));
                    assert(record@ =~= u.subrange(start - old(self).rx_offset, start - old(self).rx_offset + n));
                }
                StreamAction::Decrypt { record }
            },
            RecordStep::Skip(_) => {
                proof {
                    assert(false);
                }
                StreamAction::Done(EfiStatus(EFI_NOT_READY))
            },
        }
    }
}


/// Writes `data` into `buf` at `at`.
fn write_at(buf: &mut Vec<u8>, at: usize, data: &[u8])
    requires
        at + data@.len() <= old(buf)@.len(),
    ensures
        final(buf)@ == old(buf)@.take(at as int) + data@ + old(buf)@.skip(at + data@.len()),
{
    let mut i: usize = 0;
    while i < data.len()
        invariant
            at + data@.len() <= buf.len(),
            buf@.len() == old(buf)@.len(),
            i <= data@.len(),
            forall|j: int| 0 <= j < at ==> buf@[j] == old(buf)@[j],
            forall|j: int| 0 <= j < i ==> buf@[at + j] == data@[j],
            forall|j: int| at + data@.len() <= j < buf@.len() ==> buf@[j] == old(buf)@[j],
        decreases data@.len() - i,
    {
        buf.set(at + i, data[i]);
        i += 1;
    }
    assert(buf@ =~= old(buf)@.take(at as int) + data@ + old(buf)@.skip(at + data@.len()));
}

/// Feeds the bytes of `plain` into the header until its block ends (the
/// result's first part), the header is full, or `plain` runs out; returns
/// how many bytes it took.
fn feed_header(header: &mut Vec<u8>, plain: &[u8]) -> (r: (bool, usize))
    requires
        old(header)@.len() <= HEADER_CAP,
        forall|j: int| 0 <= j && j + 3 < old(header)@.len() ==> !header_end_at(old(header)@, j),
    ensures
        r.1 <= plain@.len(),
        final(header)@ == old(header)@ + plain@.take(r.1 as int),
        final(header)@.len() <= HEADER_CAP,
        r.0 ==> r.1 > 0 && spec_http_body_offset(final(header)@, final(header)@.len() as int) == Some(
            final(header)@.len() as int,
        ),
        !r.0 ==> (forall|j: int| 0 <= j && j + 3 < final(header)@.len() ==> !header_end_at(final(header)@, j))
            && (r.1 == plain@.len() || final(header)@.len() == HEADER_CAP),
{
    let mut i: usize = 0;
    while i < plain.len() && header.len() < HEADER_CAP
        invariant
            i <= plain@.len(),
            header@ == old(header)@ + plain@.take(i as int),
            header@.len() <= HEADER_CAP,
            forall|j: int| 0 <= j && j + 3 < header@.len() ==> !header_end_at(header@, j),
        decreases plain@.len() - i,
    {
        let ghost before = header@;
        header.push(plain[i]);
        i += 1;
        assert(plain@.take(i as int) =~= plain@.take(i - 1).push(plain@[i - 1]));
        assert forall|j: int| 0 <= j && j + 3 < before.len() implies (header_end_at(header@, j) == header_end_at(before, j)) by {}
        match find_http_body_offset(header.as_slice(), header.len()) {
            Some(k) => {
                if k < header.len() {
                    assert(header_end_at(before, k - 4));
                }
                assert(k == header@.len());
                proof {
                    lemma_body_offset_is(header@, header@.len() as int, k as int);
                }
                return (true, i);
            },
            None => {},
        }
    }
    (false, i)
}

impl KernelStream {
    /// Takes the outcome of a receive that `next_action` asked for: the
    /// status, and the bytes received. A failed receive ends the download.
    pub fn on_received(&mut self, status: EfiStatus, data: &[u8])
        requires
            old(self).wf(),
            old(self).waiting_for() is Bytes,
            data@.len() <= old(self).waiting_for()->Bytes_0,
        ensures
            final(self).wf(),
            final(self).size() == old(self).size(),
            final(self).capacity() == old(self).capacity(),
            final(self).image() == old(self).image(),
            final(self).plaintext() == old(self).plaintext(),
            final(self).receive_rounds() == old(self).receive_rounds(),
            final(self).waiting_for() == Awaiting::Nothing,
            status.spec_is_error() ==> final(self).outcome() == Some(status),
            !status.spec_is_error() ==> final(self).outcome() is None && final(self).unread() == old(self).unread()
                + data@,
    {
        self.awaiting = Awaiting::Nothing;
        if status.is_error() {
            self.finish(status);
            return;
        }
        let start = self.rx_len;
        let cap = self.rx.len();
        assert(start + data@.len() <= cap);
        write_at(&mut self.rx, start, data);
        self.rx_len = start + data.len();
        assert(self.unread() =~= old(self).unread() + data@);
    }
}


proof fn lemma_header_found(p_old: Seq<u8>, plain: Seq<u8>, c: int, header: Seq<u8>)
    requires
        0 < c <= plain.len(),
        header == p_old + plain.take(c),
        header.len() <= HEADER_CAP,
        spec_http_body_offset(header, header.len() as int) == Some(header.len() as int),
    ensures
        spec_http_body_offset(p_old + plain, (p_old + plain).len() as int) == Some(header.len() as int),
        header == (p_old + plain).take(header.len() as int),
        spec_http_body_offset(header_window(p_old + plain), header_window(p_old + plain).len() as int)
            == Some(header.len() as int),
        http_body(p_old + plain) == plain.skip(c),
{
    let p = p_old + plain;
    let l = header.len() as int;
    assert(header =~= p.take(l));
    assert(p =~= header + p.skip(l));
    lemma_body_offset_extend(header, p.skip(l));
    let w = header_window(p);
    assert(w =~= header + w.skip(l));
    lemma_body_offset_extend(header, w.skip(l));
    assert(p.skip(l) =~= plain.skip(c));
}

proof fn lemma_header_known(p_old: Seq<u8>, plain: Seq<u8>, header: Seq<u8>)
    requires
        spec_http_body_offset(p_old, p_old.len() as int) == Some(header.len() as int),
        header == p_old.take(header.len() as int),
        header.len() <= HEADER_CAP,
    ensures
        spec_http_body_offset(p_old + plain, (p_old + plain).len() as int) == Some(header.len() as int),
        (p_old + plain).take(header.len() as int) == header,
        spec_http_body_offset(header_window(p_old + plain), header_window(p_old + plain).len() as int)
            == Some(header.len() as int),
        http_body(p_old + plain) == http_body(p_old) + plain,
{
    let p = p_old + plain;
    let l = header.len() as int;
    lemma_body_offset_extend(p_old, plain);
    lemma_body_offset_props(p_old, p_old.len() as int);
    assert forall|j: int| 0 <= j < l - 4 implies !header_end_at(header, j) by {
        assert(!header_end_at(p_old, j));
    }
    lemma_body_offset_is(header, l, l);
    assert(p.take(l) =~= header);
    let w = header_window(p);
    assert(w =~= header + w.skip(l));
    lemma_body_offset_extend(header, w.skip(l));
    assert(p.skip(l) =~= p_old.skip(l) + plain);
}

proof fn lemma_header_pending(p_old: Seq<u8>, plain: Seq<u8>, c: int, header: Seq<u8>)
    requires
        0 <= c <= plain.len(),
        header == p_old + plain.take(c),
        header.len() <= HEADER_CAP,
        c == plain.len() || header.len() == HEADER_CAP,
        forall|j: int| 0 <= j && j + 3 < header.len() ==> !header_end_at(header, j),
    ensures
        spec_http_body_offset(header_window(p_old + plain), header_window(p_old + plain).len() as int) is None,
        header.len() < HEADER_CAP ==> header == p_old + plain,
        (p_old + plain).len() >= HEADER_CAP <==> header.len() == HEADER_CAP,
{
    let p = p_old + plain;
    reveal(spec_http_body_offset);
    if header.len() == HEADER_CAP {
        assert(header_window(p) =~= header);
    } else {
        assert(header =~= p);
        assert(header_window(p) =~= header);
    }
}

impl KernelStream {
    /// Takes the outcome of decrypting the record that `next_action` handed
    /// out: the status, and the plaintext. Returns the kernel bytes the
    /// plaintext brought, to be stored after those before them. A failed
    /// decryption ends the download; so does a response whose header does
    /// not carry status 200 or does not end within `HEADER_CAP` bytes, and
    /// so does the arrival of the last kernel byte (see `response_verdict`).
    #[verifier::rlimit(60)]
    pub fn on_decrypted(&mut self, status: EfiStatus, plain: &[u8]) -> (chunk: Vec<u8>)
        requires
            old(self).wf(),
            old(self).waiting_for() is Plaintext,
        ensures
            final(self).wf(),
            final(self).size() == old(self).size(),
            final(self).capacity() == old(self).capacity(),
            final(self).receive_rounds() == old(self).receive_rounds(),
            final(self).waiting_for() == Awaiting::Nothing,
            final(self).unread() == old(self).unread().skip(old(self).waiting_for()->Plaintext_0 as int),
            final(self).image() == old(self).image() + chunk@,
            status.spec_is_error() ==> final(self).outcome() == Some(status) && chunk@ == Seq::<u8>::empty(),
            !status.spec_is_error() ==> final(self).plaintext() == old(self).plaintext() + plain@,
            !status.spec_is_error() ==> match response_verdict(final(self).plaintext(), final(self).size()) {
                None => final(self).outcome() is None && chunk@ == Seq::<u8>::empty(),
                Some(None) => final(self).outcome() is None && final(self).image() == http_body(
                    final(self).plaintext(),
                ).take(kept_len(final(self).plaintext(), final(self).size())),
                Some(Some(st)) => final(self).outcome() == Some(st) && (st == EfiStatus(EFI_SUCCESS)
                    ==> final(self).image() == http_body(final(self).plaintext()).take(final(self).size() as int))
                    && (st != EfiStatus(EFI_SUCCESS) ==> chunk@ == Seq::<u8>::empty()),
            },
    {
        let n = match self.awaiting {
            Awaiting::Plaintext(n) => n,
            _ => 0,
        };
        self.rx_offset = self.rx_offset + n;
        self.awaiting = Awaiting::Nothing;
        proof {
            assert(self.unread() =~= old(self).unread().skip(n as int));
        }
        if status.is_error() {
            self.finish(status);
            return Vec::new();
        }
        proof {
            reveal(body_model);
        }
        let ghost p_old = self.plain@;
        let ghost p = p_old + plain@;
        let ghost size = self.image.size();
        self.plain = Ghost(p);
        let mut offset: usize = 0;
        let mut data_len: usize = plain.len();
        if !self.saw_header {
            proof {
                lemma_body_offset_props(p_old, p_old.len() as int);
            }
            let (found, consumed) = feed_header(&mut self.header, plain);
            if found {
                proof {
                    lemma_header_found(p_old, plain@, consumed as int, self.header@);
                }
                if !http_response_status_is_200(self.header.as_slice(), self.header.len()) {
                    self.finish(EfiStatus(EFI_DEVICE_ERROR));
                    return Vec::new();
                }
                self.saw_header = true;
                offset = consumed;
                data_len = plain.len() - consumed;
            } else {
                proof {
                    lemma_header_pending(p_old, plain@, consumed as int, self.header@);
                }
                if self.header.len() >= HEADER_CAP {
                    self.finish(EfiStatus(EFI_BUFFER_TOO_SMALL));
                    return Vec::new();
                }
                proof {
                    lemma_body_offset_props(p, p.len() as int);
                    assert(header_window(p) =~= p);
                }
                return Vec::new();
            }
        } else {
            proof {
                lemma_header_known(p_old, plain@, self.header@);
            }
        }
        let remaining = self.image.remaining();
        let copy_len = if data_len > remaining { remaining } else { data_len };
        let chunk = vstd::slice::slice_to_vec(&plain[offset..offset + copy_len]);
        self.image.append(chunk.as_slice());
        proof {
            assert(http_body(p) =~= old(self).image() + plain@.skip(offset as int)) by {
                if old(self).saw_header {
                    assert(old(self).image() =~= http_body(p_old));
                }
            }
            assert(self.image.image() =~= http_body(p).take(kept_len(p, size)));
        }
        if self.image.is_complete() {
            self.finished = Some(EfiStatus(EFI_SUCCESS));
        }
        chunk
    }
}

impl KernelStream {
    /// A download that ended in success holds the whole kernel and nothing
    /// else: the response's header ended and carried status 200, and the
    /// image is the first `size` bytes of the response's body.
    pub proof fn law_success_is_body_prefix(&self)
        requires
            self.wf(),
            self.outcome() == Some(EfiStatus(EFI_SUCCESS)),
        ensures
            self.image().len() == self.size(),
            self.image() == http_body(self.plaintext()).take(self.size() as int),
            spec_http_body_offset(self.plaintext(), self.plaintext().len() as int) matches Some(k)
                && spec_status_is_200(self.plaintext().take(k), k),
    {
        reveal(body_model);
        self.image.lemma_wf_bounds();
        assert(self.saw_header);
        let k = self.header@.len() as int;
        assert(self.plain@.take(k) == self.header@);
    }
}

/// What the framing step does with the unread bytes `a`: a whole record
/// that begins them (an application-data header and all the bytes it
/// declares) is taken whole; one that begins them but has not fully arrived
/// is kept; otherwise the bytes before the first header in sight are
/// dropped; with no header in sight at most the last four bytes (the start
/// of a header cut off) are kept.
pub proof fn law_record_step(a: Seq<u8>)
    requires
        a.len() <= usize::MAX,
    ensures
        a.len() >= 5 && app_record_tag_at(a, 0) && a[3] as int * 256 + a[4] as int + 5 <= a.len() ==> spec_record_step(
            a,
        ) == RecordStep::Record((a[3] as int * 256 + a[4] as int + 5) as usize),
        a.len() >= 5 && app_record_tag_at(a, 0) && a[3] as int * 256 + a[4] as int + 5 > a.len() ==> spec_record_step(
            a,
        ) == RecordStep::CarryPartial,
        spec_record_step(a) matches RecordStep::Skip(k) ==> 0 < k && k + 4 < a.len() && app_record_tag_at(a, k as int)
            && forall|j: int| 0 <= j < k ==> !app_record_tag_at(a, j),
        spec_record_step(a) matches RecordStep::CarryTail(c) ==> c == (if a.len() > 4 { 4 } else { a.len() })
            && forall|j: int| 0 <= j && j + 4 < a.len() ==> !app_record_tag_at(a, j),
        spec_record_step(a) matches RecordStep::Record(n) ==> a.len() >= 5 && app_record_tag_at(a, 0) && n == a[3]
            as int * 256 + a[4] as int + 5 && n <= a.len(),
        spec_record_step(a) is CarryPartial ==> a.len() >= 5 && app_record_tag_at(a, 0) && a[3] as int * 256 + a[4]
            as int + 5 > a.len(),
{
    reveal(spec_record_step);
    let n = a.len() as int;
    if !(n >= 5 && app_record_tag_at(a, 0)) {
        if exists|i: int| 0 <= i && i + 4 < n && app_record_tag_at(a, i) {
            let w = choose|i: int| 0 <= i && i + 4 < n && app_record_tag_at(a, i);
            let f = |i: int| 0 <= i && i + 4 < n && app_record_tag_at(a, i);
            assert(f(w));
            crate::http_wire::lemma_first_witness(f, 0, w);
            let m = choose|m: int| 0 <= m <= w && #[trigger] f(m) && forall|j: int| 0 <= j < m ==> !#[trigger] f(j);
            assert forall|j: int| 0 <= j < m implies !app_record_tag_at(a, j) by {
                assert(!f(j));
            }
            let k = choose|i: int| 0 <= i && i + 4 < n && app_record_tag_at(a, i)
                && forall|j: int| 0 <= j < i ==> !app_record_tag_at(a, j);
            if k < m {
                assert(!app_record_tag_at(a, k));
            } else if m < k {
                assert(!app_record_tag_at(a, m));
            }
            assert(spec_find_tls_app_record_start(a, n) == Some(m));
            if m == 0 {
                assert(app_record_tag_at(a, 0) && n >= 5);
            }
        }
    }
}

proof fn lemma_frame_stops_at_a_step(u: Seq<u8>, s: int)
    requires
        0 <= s < u.len(),
        u.len() <= usize::MAX,
    ensures
        s <= spec_frame(u, s).0 < u.len(),
        spec_frame(u, s).1 == spec_record_step(u.skip(spec_frame(u, s).0)),
        !(spec_frame(u, s).1 is Skip),
    decreases u.len() - s,
{
    law_record_step(u.skip(s));
    match spec_record_step(u.skip(s)) {
        RecordStep::Skip(k) => {
            lemma_frame_stops_at_a_step(u, s + k);
        },
        _ => {},
    }
}

impl KernelStream {
    /// What the stream asks of its caller is sound: a receive is for exactly
    /// the room left in the buffer after what it keeps, and a record handed
    /// out for decryption is a whole application-data record (its header
    /// declares its length) at the start of what stays unread.
    pub proof fn law_next_action_fits(pre: KernelStream, post: KernelStream, r: StreamAction)
        requires
            pre.wf(),
            pre.capacity() <= usize::MAX,
            pre.waiting_for() == Awaiting::Nothing,
            spec_next_action(pre, post, r),
        ensures
            r matches StreamAction::Receive { max_len, .. } ==> post.unread().len() + max_len == pre.capacity(),
            r matches StreamAction::Decrypt { record } ==> {
                &&& record@.len() >= 5
                &&& app_record_tag_at(record@, 0)
                &&& record@[3] as int * 256 + record@[4] as int + 5 == record@.len()
                &&& post.unread().take(record@.len() as int) == record@
            },
    {
        let u = pre.unread();
        let cap = pre.capacity();
        if pre.outcome() is None && u.len() > 0 {
            lemma_frame_stops_at_a_step(u, 0);
            let (s, step) = spec_frame(u, 0);
            law_record_step(u.skip(s));
            match step {
                RecordStep::Record(n) => {
                    let record = u.subrange(s, s + n as int);
                    assert(record =~= u.skip(s).take(n as int));
                    assert(u.skip(s).take(n as int) =~= u.skip(s).subrange(0, n as int));
                },
                _ => {},
            }
        }
    }
}

} // verus!
