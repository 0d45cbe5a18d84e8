//! The decisions of the loader's firmware conversations: when to go on
//! after a protocol call, how the TLS handshake proceeds round by round,
//! how completions are polled and receives retried, and how boot services
//! are left. Each conversation is a small machine: the caller makes the
//! firmware call that a step asks for and reports the status it got.
use vstd::prelude::*;
use crate::status::{EfiStatus, EFI_BUFFER_TOO_SMALL, EFI_DEVICE_ERROR, EFI_INVALID_PARAMETER, EFI_NOT_FOUND, EFI_NOT_READY,
    EFI_SUCCESS, EFI_UNSUPPORTED};
use crate::manifest_fetch::EFI_TLS_SESSION_DATA_TRANSFERRING;

verus! {

/// Whether a conversation goes on after a firmware call.
#[derive(Clone, Copy, Debug, PartialEq, Eq, Structural)]
pub enum Step {
    /// Go on.
    Proceed,
    /// Stop, and return this status (which need not be an error).
    Stop(EfiStatus),
}

/// After a firmware call that hands back a child or a protocol interface:
/// stop with the status when it is an error, with `EFI_UNSUPPORTED` when
/// nothing came back.
pub fn handed_back(status: EfiStatus, has_child: bool) -> (r: Step)
    ensures
        status.spec_is_error() ==> r == Step::Stop(status),
        !status.spec_is_error() && !has_child ==> r == Step::Stop(EfiStatus(EFI_UNSUPPORTED)),
        !status.spec_is_error() && has_child ==> r == Step::Proceed,
{
    if status.is_error() {
        Step::Stop(status)
    } else if !has_child {
        Step::Stop(EfiStatus(EFI_UNSUPPORTED))
    } else {
        Step::Proceed
    }
}

/// After locating the handles of a protocol: stop with the lookup's own
/// status when it failed, found none, or gave no handle buffer.
pub fn handles_found(status: EfiStatus, count: usize, has_handles: bool) -> (r: Step)
    ensures
        (status.spec_is_error() || count == 0 || !has_handles) ==> r == Step::Stop(status),
        !(status.spec_is_error() || count == 0 || !has_handles) ==> r == Step::Proceed,
{
    if status.is_error() || count == 0 || !has_handles {
        Step::Stop(status)
    } else {
        Step::Proceed
    }
}

/// After building the ClientHello: stop with the build status when it
/// failed or left no bytes, or more than the `capacity` of its buffer.
pub fn clienthello_built(status: EfiStatus, len: usize, capacity: usize) -> (r: Step)
    ensures
        (status.spec_is_error() || len == 0 || len > capacity) ==> r == Step::Stop(status),
        !(status.spec_is_error() || len == 0 || len > capacity) ==> r == Step::Proceed,
{
    if status.is_error() || len == 0 || len > capacity {
        Step::Stop(status)
    } else {
        Step::Proceed
    }
}

/// The most handshake rounds after the ClientHello.
pub const HANDSHAKE_ROUNDS: usize = 4;

/// What a handshake round decided after the firmware built its response.
#[derive(Clone, Copy, Debug, PartialEq, Eq, Structural)]
pub enum HandshakeStep {
    /// The handshake failed with this status.
    Failed(EfiStatus),
    /// The session carries application data.
    Established,
    /// Send the first this many bytes of the response, and receive.
    Send(usize),
}

/// The decision of one handshake round: a failed build ends the handshake
/// with its status; a session in the data-transferring state is
/// established; a response that is empty or longer than `capacity` ends
/// it with `EFI_NOT_READY`; otherwise the response is sent.
pub open spec fn spec_handshake_step(build_status: EfiStatus, session_state: u32, out_len: usize, capacity: usize) -> HandshakeStep {
    if build_status.spec_is_error() {
        HandshakeStep::Failed(build_status)
    } else if session_state == EFI_TLS_SESSION_DATA_TRANSFERRING {
        HandshakeStep::Established
    } else if out_len == 0 || out_len > capacity {
        HandshakeStep::Failed(EfiStatus(EFI_NOT_READY))
    } else {
        HandshakeStep::Send(out_len)
    }
}

/// The state of a TLS handshake on the loader's own TCP connection.
pub struct Handshake {
    round: usize,
    status: EfiStatus,
    established: bool,
}

impl Handshake {
    /// The rounds done.
    pub closed spec fn rounds(&self) -> nat {
        self.round as nat
    }

    /// The status of the last exchange.
    pub closed spec fn last_status(&self) -> EfiStatus {
        self.status
    }

    /// Whether the session reached the data-transferring state.
    pub closed spec fn is_established(&self) -> bool {
        self.established
    }

    pub closed spec fn wf(&self) -> bool {
        self.round <= HANDSHAKE_ROUNDS
    }

    /// Another round is due: the last exchange succeeded, the session is
    /// not yet established, and fewer than `HANDSHAKE_ROUNDS` rounds ran.
    pub open spec fn spec_wants_round(&self) -> bool {
        !self.last_status().spec_is_error() && !self.is_established() && self.rounds() < HANDSHAKE_ROUNDS
    }

    /// A handshake whose ClientHello exchange ended with `status`.
    pub fn new(status: EfiStatus) -> (r: Handshake)
        ensures
            r.wf(),
            r.rounds() == 0,
            r.last_status() == status,
            !r.is_established(),
    {
        Handshake { round: 0, status, established: false }
    }

    /// Whether another round is due.
    pub fn wants_round(&self) -> (r: bool)
        ensures
            r == self.spec_wants_round(),
    {
        !self.status.is_error() && !self.established && self.round < HANDSHAKE_ROUNDS
    }

    /// Takes what the firmware built in this round: its status, the
    /// session state after it, and the length of the response in a buffer
    /// of `capacity` bytes. A failure becomes the handshake's status.
    pub fn on_built(&mut self, build_status: EfiStatus, session_state: u32, out_len: usize, capacity: usize) -> (r: HandshakeStep)
        requires
            old(self).wf(),
            old(self).spec_wants_round(),
        ensures
            final(self).wf(),
            r == spec_handshake_step(build_status, session_state, out_len, capacity),
            build_status.spec_is_error() ==> r == HandshakeStep::Failed(build_status),
            !build_status.spec_is_error() && session_state == EFI_TLS_SESSION_DATA_TRANSFERRING ==> r
                == HandshakeStep::Established,
            !build_status.spec_is_error() && session_state != EFI_TLS_SESSION_DATA_TRANSFERRING && (out_len == 0
                || out_len > capacity) ==> r == HandshakeStep::Failed(EfiStatus(EFI_NOT_READY)),
            !build_status.spec_is_error() && session_state != EFI_TLS_SESSION_DATA_TRANSFERRING && 0 < out_len
                <= capacity ==> r == HandshakeStep::Send(out_len),
            final(self).rounds() == old(self).rounds(),
            r matches HandshakeStep::Failed(st) ==> final(self).last_status() == st && !final(self).is_established(),
            r is Established ==> final(self).is_established() && final(self).last_status() == old(self).last_status(),
            r is Send ==> final(self).last_status() == old(self).last_status() && !final(self).is_established(),
    {
        if build_status.is_error() {
            self.status = build_status;
            HandshakeStep::Failed(build_status)
        } else if session_state == EFI_TLS_SESSION_DATA_TRANSFERRING {
            self.established = true;
            HandshakeStep::Established
        } else if out_len == 0 || out_len > capacity {
            self.status = EfiStatus(EFI_NOT_READY);
            HandshakeStep::Failed(EfiStatus(EFI_NOT_READY))
        } else {
            HandshakeStep::Send(out_len)
        }
    }

    /// Takes the status of sending the response and receiving the reply;
    /// the round is done.
    pub fn on_exchanged(&mut self, status: EfiStatus)
        requires
            old(self).wf(),
            old(self).spec_wants_round(),
        ensures
            final(self).wf(),
            final(self).rounds() == old(self).rounds() + 1,
            final(self).last_status() == status,
            final(self).is_established() == old(self).is_established(),
    {
        self.status = status;
        self.round = self.round + 1;
    }

    /// The status the handshake ended with.
    pub fn status(&self) -> (r: EfiStatus)
        ensures
            r == self.last_status(),
    {
        self.status
    }
}

/// What a poll of a completion token decided.
#[derive(Clone, Copy, Debug, PartialEq, Eq, Structural)]
pub enum PollStep {
    /// Poll the protocol and read the token again.
    PollAgain,
    /// The completion is over with this status.
    Done(EfiStatus),
}

/// The polling of a completion token, at most `limit` polls.
pub struct Poller {
    polls: usize,
    limit: usize,
}

impl Poller {
    /// The polls made.
    pub closed spec fn polls(&self) -> nat {
        self.polls as nat
    }

    /// The most polls.
    pub closed spec fn limit(&self) -> nat {
        self.limit as nat
    }

    pub closed spec fn wf(&self) -> bool {
        self.polls <= self.limit
    }

    /// A poller for at most `limit` polls.
    pub fn new(limit: usize) -> (r: Poller)
        ensures
            r.wf(),
            r.polls() == 0,
            r.limit() == limit,
    {
        Poller { polls: 0, limit }
    }

    /// Takes the status read from the token: any status but
    /// `EFI_NOT_READY` ends the wait, and so does any status read once the
    /// `limit` polls were made; otherwise the protocol is polled again.
    pub fn on_status(&mut self, status: EfiStatus) -> (r: PollStep)
        requires
            old(self).wf(),
        ensures
            final(self).wf(),
            final(self).limit() == old(self).limit(),
            status != EfiStatus(EFI_NOT_READY) ==> r == PollStep::Done(status) && final(self).polls() == old(
                self,
            ).polls(),
            status == EfiStatus(EFI_NOT_READY) && old(self).polls() < old(self).limit() ==> r == PollStep::PollAgain
                && final(self).polls() == old(self).polls() + 1,
            status == EfiStatus(EFI_NOT_READY) && old(self).polls() == old(self).limit() ==> r == PollStep::Done(
                status,
            ) && final(self).polls() == old(self).polls(),
    {
        if status.0 != EFI_NOT_READY {
            PollStep::Done(status)
        } else if self.polls < self.limit {
            self.polls = self.polls + 1;
            PollStep::PollAgain
        } else {
            PollStep::Done(status)
        }
    }
}

/// What the receive loop for kernel bytes decided.
#[derive(Clone, Copy, Debug, PartialEq, Eq, Structural)]
pub enum RetryStep {
    /// Make another receive attempt.
    Attempt,
    /// The receive is over with this status.
    Done(EfiStatus),
}

/// The receive attempts for kernel bytes: at most `retries` attempts; an
/// attempt that completes ends them, one that fails is retried, and the
/// status of the last failure is the result when none completes.
pub struct ReceiveRetry {
    attempt: usize,
    retries: usize,
    last: EfiStatus,
}

impl ReceiveRetry {
    /// The attempts made.
    pub closed spec fn attempts(&self) -> nat {
        self.attempt as nat
    }

    /// The most attempts.
    pub closed spec fn retries(&self) -> nat {
        self.retries as nat
    }

    /// The status of the last failed attempt (`EFI_NOT_READY` before any).
    pub closed spec fn last_status(&self) -> EfiStatus {
        self.last
    }

    pub closed spec fn wf(&self) -> bool {
        self.attempt <= self.retries
    }

    /// Attempts for at most `retries` receives.
    pub fn new(retries: usize) -> (r: ReceiveRetry)
        ensures
            r.wf(),
            r.attempts() == 0,
            r.retries() == retries,
            r.last_status() == EfiStatus(EFI_NOT_READY),
    {
        ReceiveRetry { attempt: 0, retries, last: EfiStatus(EFI_NOT_READY) }
    }

    /// Whether an attempt is due, or the status the receive ends with.
    pub fn next(&self) -> (r: RetryStep)
        requires
            self.wf(),
        ensures
            self.attempts() < self.retries() ==> r == RetryStep::Attempt,
            self.attempts() == self.retries() ==> r == RetryStep::Done(self.last_status()),
    {
        if self.attempt < self.retries {
            RetryStep::Attempt
        } else {
            RetryStep::Done(self.last)
        }
    }

    /// Takes the status of an attempt: creating its event failed, or it
    /// completed with `completion`. A failed event ends the receive with
    /// its status; a completion without error ends it with that status; a
    /// failed completion is remembered and the attempt counted.
    pub fn on_attempt(&mut self, event_status: EfiStatus, completion: EfiStatus) -> (r: Option<EfiStatus>)
        requires
            old(self).wf(),
            old(self).attempts() < old(self).retries(),
        ensures
            final(self).wf(),
            final(self).retries() == old(self).retries(),
            event_status.spec_is_error() ==> r == Some(event_status),
            !event_status.spec_is_error() && !completion.spec_is_error() ==> r == Some(completion),
            !event_status.spec_is_error() && completion.spec_is_error() ==> r is None && final(self).attempts()
                == old(self).attempts() + 1 && final(self).last_status() == completion,
    {
        if event_status.is_error() {
            return Some(event_status);
        }
        if !completion.is_error() {
            return Some(completion);
        }
        self.last = completion;
        self.attempt = self.attempt + 1;
        None
    }
}

/// The bytes a receive delivered: none when its completion failed, else
/// the length the firmware reported.
pub fn received_len(completion: EfiStatus, data_length: u32) -> (r: usize)
    ensures
        completion.spec_is_error() ==> r == 0,
        !completion.spec_is_error() ==> r == data_length,
{
    if completion.is_error() {
        0
    } else {
        data_length as usize
    }
}

/// Where the reply to a transmission comes from.
#[derive(Clone, Copy, Debug, PartialEq, Eq, Structural)]
pub enum ReplyPlan {
    /// The transmission failed with this status.
    Failed(EfiStatus),
    /// Wait for the receive submitted before the transmission.
    AwaitPending,
    /// Submit a fresh receive.
    ReceiveNow,
}

/// After transmitting with a receive submitted beforehand: a failed
/// transmission is the result; otherwise the pending receive is awaited if
/// its submission succeeded, and a fresh receive is made if it did not.
pub fn reply_plan(tx_status: EfiStatus, pending_submit_status: EfiStatus) -> (r: ReplyPlan)
    ensures
        tx_status.spec_is_error() ==> r == ReplyPlan::Failed(tx_status),
        !tx_status.spec_is_error() && !pending_submit_status.spec_is_error() ==> r == ReplyPlan::AwaitPending,
        !tx_status.spec_is_error() && pending_submit_status.spec_is_error() ==> r == ReplyPlan::ReceiveNow,
{
    if tx_status.is_error() {
        ReplyPlan::Failed(tx_status)
    } else if !pending_submit_status.is_error() {
        ReplyPlan::AwaitPending
    } else {
        ReplyPlan::ReceiveNow
    }
}

/// The length of the fragment that the TLS protocol handed back: none when
/// processing failed or gave no fragment.
pub fn fragment_len(status: EfiStatus, has_fragment: bool, length: u32) -> (r: usize)
    ensures
        (status.spec_is_error() || !has_fragment) ==> r == 0,
        !(status.spec_is_error() || !has_fragment) ==> r == length,
{
    if status.is_error() || !has_fragment {
        0
    } else {
        length as usize
    }
}

/// Copies at most `out.len()` of the `len` bytes of `src` to the start of
/// `out`, and returns how many; none when there is no source.
pub fn copy_fragment(out: &mut [u8], src: Option<&[u8]>, len: usize) -> (r: usize)
    requires
        src matches Some(s) ==> len <= s@.len(),
    ensures
        final(out)@.len() == old(out)@.len(),
        src is None ==> r == 0 && final(out)@ == old(out)@,
        src matches Some(s) ==> r == (if len < old(out)@.len() { len } else { old(out)@.len() as usize })
            && final(out)@ == s@.take(r as int) + old(out)@.skip(r as int),
{
    match src {
        None => 0,
        Some(s) => {
            let count = if len < out.len() { len } else { out.len() };
            let mut i: usize = 0;
            while i < count
                invariant
                    count <= out@.len(),
                    count <= s@.len(),
                    out@.len() == old(out)@.len(),
                    i <= count,
                    forall|j: int| 0 <= j < i ==> out@[j] == s@[j],
                    forall|j: int| i <= j < out@.len() ==> out@[j] == old(out)@[j],
                decreases count - i,
            {
                out[i] = s[i];
                i += 1;
            }
            assert(out@ =~= s@.take(count as int) + old(out)@.skip(count as int));
            count
        },
    }
}

/// Before encrypting an HTTPS request: stop with `EFI_BUFFER_TOO_SMALL`
/// when the plaintext record could not be framed (length 0).
pub fn record_framed(record_len: usize) -> (r: Step)
    ensures
        record_len == 0 ==> r == Step::Stop(EfiStatus(EFI_BUFFER_TOO_SMALL)),
        record_len != 0 ==> r == Step::Proceed,
{
    if record_len == 0 {
        Step::Stop(EfiStatus(EFI_BUFFER_TOO_SMALL))
    } else {
        Step::Proceed
    }
}

/// After encrypting: stop with the encryption status when it failed or
/// produced nothing.
pub fn encrypted(status: EfiStatus, len: usize) -> (r: Step)
    ensures
        (status.spec_is_error() || len == 0) ==> r == Step::Stop(status),
        !(status.spec_is_error() || len == 0) ==> r == Step::Proceed,
{
    if status.is_error() || len == 0 {
        Step::Stop(status)
    } else {
        Step::Proceed
    }
}

/// What the firmware HTTP client's request submission means for the
/// exchange.
#[derive(Clone, Copy, Debug, PartialEq, Eq, Structural)]
pub enum RequestStep {
    /// Poll the request token for its completion.
    Poll,
    /// Go on as if the request completed: `EFI_NOT_FOUND` at submission
    /// keeps the connection's context, after one poll of the protocol.
    PollOnceAndProceed,
    /// The request failed with this status.
    Failed(EfiStatus),
}

/// The decision after submitting a request to the firmware HTTP client.
pub fn after_request_submit(submit_status: EfiStatus) -> (r: RequestStep)
    ensures
        !submit_status.spec_is_error() ==> r == RequestStep::Poll,
        submit_status == EfiStatus(EFI_NOT_FOUND) ==> r == RequestStep::PollOnceAndProceed,
        submit_status.spec_is_error() && submit_status != EfiStatus(EFI_NOT_FOUND) ==> r == RequestStep::Failed(
            submit_status,
        ),
{
    if !submit_status.is_error() {
        RequestStep::Poll
    } else if submit_status.0 == EFI_NOT_FOUND {
        RequestStep::PollOnceAndProceed
    } else {
        RequestStep::Failed(submit_status)
    }
}

/// The most bytes of a `Host` header value, its terminating zero included.
pub const HOST_VALUE_MAX: usize = 96;

/// The zero-terminated value of the `Host` header for `host`, or
/// `EFI_BUFFER_TOO_SMALL` when it does not fit in `HOST_VALUE_MAX` bytes.
pub fn host_header_value(host: &[u8]) -> (r: Result<Vec<u8>, EfiStatus>)
    ensures
        host@.len() + 1 <= HOST_VALUE_MAX ==> (r matches Ok(v) && v@ == host@.push(0)),
        host@.len() + 1 > HOST_VALUE_MAX ==> r == Err::<Vec<u8>, EfiStatus>(EfiStatus(EFI_BUFFER_TOO_SMALL)),
{
    if host.len() >= HOST_VALUE_MAX {
        return Err(EfiStatus(EFI_BUFFER_TOO_SMALL));
    }
    let mut v: Vec<u8> = Vec::new();
    let mut i: usize = 0;
    while i < host.len()
        invariant
            i <= host@.len(),
            v@ == host@.take(i as int),
        decreases host@.len() - i,
    {
        v.push(host[i]);
        i += 1;
        assert(v@ =~= host@.take(i as int));
    }
    v.push(0);
    assert(v@ =~= host@.push(0));
    Ok(v)
}

/// What leaving boot services asks for next.
#[derive(Clone, Copy, Debug, PartialEq, Eq, Structural)]
pub enum ExitAction {
    /// Read the memory map for its key.
    FetchMapKey,
    /// Exit boot services with this map key.
    ExitWith(usize),
    /// Leaving boot services is over with this status.
    Done(EfiStatus),
}

/// Leaving boot services with a fresh memory map key: when the first exit
/// is refused with `EFI_INVALID_PARAMETER` (the map changed), the key is
/// read again and the exit tried once more.
pub struct ExitBootServices {
    retried: bool,
}

impl ExitBootServices {
    /// Whether the exit was already tried once more.
    pub closed spec fn has_retried(&self) -> bool {
        self.retried
    }

    /// The start: read the memory map key.
    pub fn start() -> (r: (ExitBootServices, ExitAction))
        ensures
            !r.0.has_retried(),
            r.1 == ExitAction::FetchMapKey,
    {
        (ExitBootServices { retried: false }, ExitAction::FetchMapKey)
    }

    /// Takes the status of reading the memory map and the key it gave.
    pub fn on_map_key(&self, status: EfiStatus, map_key: usize) -> (r: ExitAction)
        ensures
            status.spec_is_error() ==> r == ExitAction::Done(status),
            !status.spec_is_error() ==> r == ExitAction::ExitWith(map_key),
    {
        if status.is_error() {
            ExitAction::Done(status)
        } else {
            ExitAction::ExitWith(map_key)
        }
    }

    /// Takes the status of exiting boot services.
    pub fn on_exit(&mut self, status: EfiStatus) -> (r: ExitAction)
        ensures
            (status == EfiStatus(EFI_INVALID_PARAMETER) && !old(self).has_retried()) ==> r == ExitAction::FetchMapKey
                && final(self).has_retried(),
            !(status == EfiStatus(EFI_INVALID_PARAMETER) && !old(self).has_retried()) ==> r == ExitAction::Done(
                status,
            ) && final(self).has_retried() == old(self).has_retried(),
    {
        if status.0 == EFI_INVALID_PARAMETER && !self.retried {
            self.retried = true;
            ExitAction::FetchMapKey
        } else {
            ExitAction::Done(status)
        }
    }
}

/// The status a download ends the boot attempt with, once the kernel is
/// in place: success when the boot jump is disabled or the memory map
/// could not be read (the loader stays), otherwise the jump is due.
pub fn jump_due(boot_jump_enabled: bool, memory_map_status: EfiStatus) -> (r: Step)
    ensures
        (!boot_jump_enabled || memory_map_status.spec_is_error()) ==> r == Step::Stop(EfiStatus(EFI_SUCCESS)),
        (boot_jump_enabled && !memory_map_status.spec_is_error()) ==> r == Step::Proceed,
{
    if !boot_jump_enabled || memory_map_status.is_error() {
        Step::Stop(EfiStatus(EFI_SUCCESS))
    } else {
        Step::Proceed
    }
}

/// How often the loader tries its network routes before it gives up.
pub const LOADER_ATTEMPTS: usize = 3;

/// The loader's rounds over its network routes.
pub struct LoaderAttempts {
    attempt: usize,
}

impl LoaderAttempts {
    /// The rounds begun.
    pub closed spec fn begun(&self) -> nat {
        self.attempt as nat
    }

    /// No round begun yet.
    pub fn new() -> (r: LoaderAttempts)
        ensures
            r.begun() == 0,
    {
        LoaderAttempts { attempt: 0 }
    }

    /// Begins another round, if fewer than `LOADER_ATTEMPTS` were begun.
    pub fn begin(&mut self) -> (r: bool)
        ensures
            r == (old(self).begun() < LOADER_ATTEMPTS),
            r ==> final(self).begun() == old(self).begun() + 1,
            !r ==> final(self).begun() == old(self).begun(),
    {
        if self.attempt < LOADER_ATTEMPTS {
            self.attempt = self.attempt + 1;
            true
        } else {
            false
        }
    }
}

/// After a route of the loader (its own TLS connection, or the firmware
/// HTTP client): a route that succeeded ends the loader with success.
pub fn route_done(status: EfiStatus) -> (r: Step)
    ensures
        !status.spec_is_error() ==> r == Step::Stop(EfiStatus(EFI_SUCCESS)),
        status.spec_is_error() ==> r == Step::Proceed,
{
    if status.is_error() {
        Step::Proceed
    } else {
        Step::Stop(EfiStatus(EFI_SUCCESS))
    }
}

/// Trying the handles of a service one by one until one succeeds: the
/// result is the status of the last handle tried (`EFI_NOT_FOUND` when
/// none was), and the trial stops at the first success.
pub struct HandleTrial {
    index: usize,
    count: usize,
    result: EfiStatus,
    done: bool,
}

impl HandleTrial {
    /// The handles passed so far.
    pub closed spec fn passed(&self) -> nat {
        self.index as nat
    }

    /// The number of handles.
    pub closed spec fn count(&self) -> nat {
        self.count as nat
    }

    /// The status of the last handle tried.
    pub closed spec fn last_result(&self) -> EfiStatus {
        self.result
    }

    /// Whether a handle succeeded.
    pub closed spec fn succeeded(&self) -> bool {
        self.done
    }

    pub closed spec fn wf(&self) -> bool {
        self.index <= self.count
    }

    /// A trial of `count` handles.
    pub fn new(count: usize) -> (r: HandleTrial)
        ensures
            r.wf(),
            r.passed() == 0,
            r.count() == count,
            r.last_result() == EfiStatus(EFI_NOT_FOUND),
            !r.succeeded(),
    {
        HandleTrial { index: 0, count, result: EfiStatus(EFI_NOT_FOUND), done: false }
    }

    /// The index of the next handle to try, if any is left and none
    /// succeeded.
    pub fn next_index(&self) -> (r: Option<usize>)
        requires
            self.wf(),
        ensures
            (self.succeeded() || self.passed() == self.count()) ==> r is None,
            !(self.succeeded() || self.passed() == self.count()) ==> r == Some(self.passed() as usize),
    {
        if self.done || self.index >= self.count {
            None
        } else {
            Some(self.index)
        }
    }

    /// Takes the status of trying the current handle.
    pub fn on_result(&mut self, status: EfiStatus)
        requires
            old(self).wf(),
            !old(self).succeeded(),
            old(self).passed() < old(self).count(),
        ensures
            final(self).wf(),
            final(self).count() == old(self).count(),
            final(self).last_result() == status,
            final(self).succeeded() == !status.spec_is_error(),
            status.spec_is_error() ==> final(self).passed() == old(self).passed() + 1,
            !status.spec_is_error() ==> final(self).passed() == old(self).passed(),
    {
        self.result = status;
        if status.is_error() {
            self.index = self.index + 1;
        } else {
            self.done = true;
        }
    }

    /// Passes over the current handle without a result (it could not be
    /// opened).
    pub fn skip(&mut self)
        requires
            old(self).wf(),
            !old(self).succeeded(),
            old(self).passed() < old(self).count(),
        ensures
            final(self).wf(),
            final(self).count() == old(self).count(),
            final(self).last_result() == old(self).last_result(),
            !final(self).succeeded(),
            final(self).passed() == old(self).passed() + 1,
    {
        self.index = self.index + 1;
    }

    /// The trial's result.
    pub fn result(&self) -> (r: EfiStatus)
        ensures
            r == self.last_result(),
    {
        self.result
    }
}

/// The ways the loader asks a firmware HTTP service for the manifest, in
/// order: the URL as given; the URL with the `Host` header naming port
/// 3443; the URL rewritten to the default HTTPS port, with the bare host.
#[derive(Clone, Copy, Debug, PartialEq, Eq, Structural)]
pub enum ManifestRoute {
    AsGiven,
    HostWithPort,
    DefaultPort,
}

/// The routes tried on one HTTP service handle: the first that succeeds
/// ends the trial with its status; when none does, the result is the
/// status of the first route.
pub struct ManifestRoutes {
    next: Option<ManifestRoute>,
    first: EfiStatus,
}

impl ManifestRoutes {
    /// The route to try next, if any.
    pub closed spec fn pending(&self) -> Option<ManifestRoute> {
        self.next
    }

    /// The status of the first route (`EFI_NOT_READY` before it is tried).
    pub closed spec fn first_status(&self) -> EfiStatus {
        self.first
    }

    /// Starts with the URL as given.
    pub fn new() -> (r: ManifestRoutes)
        ensures
            r.pending() == Some(ManifestRoute::AsGiven),
    {
        ManifestRoutes { next: Some(ManifestRoute::AsGiven), first: EfiStatus(EFI_NOT_READY) }
    }

    /// The route to try next, if any.
    pub fn next_route(&self) -> (r: Option<ManifestRoute>)
        ensures
            r == self.pending(),
    {
        self.next
    }

    /// Takes the status of the pending route (for the last route, also
    /// when its URL could not be made). Returns the status the trial ends
    /// with, once it ends.
    pub fn on_result(&mut self, status: EfiStatus) -> (r: Option<EfiStatus>)
        requires
            old(self).pending() is Some,
        ensures
            !status.spec_is_error() ==> r == Some(status) && final(self).pending() is None,
            status.spec_is_error() && old(self).pending() == Some(ManifestRoute::AsGiven) ==> r is None
                && final(self).pending() == Some(ManifestRoute::HostWithPort) && final(self).first_status() == status,
            status.spec_is_error() && old(self).pending() == Some(ManifestRoute::HostWithPort) ==> r is None
                && final(self).pending() == Some(ManifestRoute::DefaultPort) && final(self).first_status()
                == old(self).first_status(),
            status.spec_is_error() && old(self).pending() == Some(ManifestRoute::DefaultPort) ==> r == Some(
                old(self).first_status(),
            ) && final(self).pending() is None,
    {
        if !status.is_error() {
            self.next = None;
            return Some(status);
        }
        match self.next {
            Some(ManifestRoute::AsGiven) => {
                self.first = status;
                self.next = Some(ManifestRoute::HostWithPort);
                None
            },
            Some(ManifestRoute::HostWithPort) => {
                self.next = Some(ManifestRoute::DefaultPort);
                None
            },
            _ => {
                self.next = None;
                Some(self.first)
            },
        }
    }
}

/// After reading the memory map for the target probe: stop with the
/// read's status when it failed, gave no descriptor size, or the range is
/// empty.
pub fn memory_map_usable(status: EfiStatus, descriptor_size: usize, size: u64) -> (r: Step)
    ensures
        (status.spec_is_error() || descriptor_size == 0 || size == 0) ==> r == Step::Stop(status),
        !(status.spec_is_error() || descriptor_size == 0 || size == 0) ==> r == Step::Proceed,
{
    if status.is_error() || descriptor_size == 0 || size == 0 {
        Step::Stop(status)
    } else {
        Step::Proceed
    }
}

/// After allocating pages at `wanted`: go on when the firmware placed
/// them there; otherwise stop with the allocation's error, or with
/// `EFI_DEVICE_ERROR` when it succeeded but placed the pages elsewhere
/// (then the kernel would not be at its load address; the caller frees
/// those pages).
pub fn allocated_at(status: EfiStatus, got: u64, wanted: u64) -> (r: Step)
    ensures
        status.spec_is_error() ==> r == Step::Stop(status),
        !status.spec_is_error() && got != wanted ==> r == Step::Stop(EfiStatus(EFI_DEVICE_ERROR)),
        !status.spec_is_error() && got == wanted ==> r == Step::Proceed,
        r matches Step::Stop(st) ==> st.spec_is_error(),
{
    if status.is_error() {
        Step::Stop(status)
    } else if got != wanted {
        Step::Stop(EfiStatus(EFI_DEVICE_ERROR))
    } else {
        Step::Proceed
    }
}

/// The result of a kernel download over the loader's own connection, given
/// how the download ended and where its pages are (`placement`, the step
/// `allocated_at` gave for the load address; on a stop the download went to
/// staging pages elsewhere). Success only for a complete download at the
/// load address: a failed download keeps its status, and a staged one ends
/// with the status of the placement, as the kernel is not where it must be.
pub fn placed_download_result(download_status: EfiStatus, placement: Step) -> (r: EfiStatus)
    ensures
        download_status.spec_is_error() ==> r == download_status,
        !download_status.spec_is_error() && placement == Step::Proceed ==> r == EfiStatus(EFI_SUCCESS),
        !download_status.spec_is_error() ==> (placement matches Step::Stop(st) ==> r == st),
{
    if download_status.is_error() {
        download_status
    } else {
        match placement {
            Step::Proceed => EfiStatus(EFI_SUCCESS),
            Step::Stop(st) => st,
        }
    }
}

/// A firmware resource that a conversation holds and must give back.
#[derive(Clone, Copy, Debug, PartialEq, Eq, Structural)]
pub enum Resource {
    /// The handle buffer of the TLS services.
    TlsServiceHandles,
    /// A child of the TLS service binding.
    TlsChild,
    /// The handle buffer of the TCP4 services.
    TcpServiceHandles,
    /// A child of the TCP4 service binding.
    TcpChild,
    /// A configured TCP4 instance (given back by configuring it with none).
    TcpConfiguration,
    /// A child of an HTTP service binding.
    HttpChild,
    /// Pages allocated for the kernel.
    KernelPages,
}

/// The resources a conversation holds, in the order it took them. Each is
/// held at most once; giving them back releases each exactly once, the
/// last taken first.
pub struct ReleaseStack {
    held: Vec<Resource>,
}

impl ReleaseStack {
    /// The resources held, in the order they were taken.
    pub closed spec fn holding(&self) -> Seq<Resource> {
        self.held@
    }

    pub closed spec fn wf(&self) -> bool {
        self.held@.no_duplicates()
    }

    /// Nothing held.
    pub fn new() -> (r: ReleaseStack)
        ensures
            r.wf(),
            r.holding() == Seq::<Resource>::empty(),
    {
        ReleaseStack { held: Vec::new() }
    }

    /// Whether `res` is held.
    pub fn holds(&self, res: Resource) -> (r: bool)
        ensures
            r == self.holding().contains(res),
    {
        let mut i: usize = 0;
        while i < self.held.len()
            invariant
                i <= self.held@.len(),
                forall|k: int| 0 <= k < i ==> self.held@[k] != res,
            decreases self.held@.len() - i,
        {
            if self.held[i] == res {
                return true;
            }
            i += 1;
        }
        false
    }

    /// Records that `res` was taken.
    pub fn take(&mut self, res: Resource)
        requires
            old(self).wf(),
            !old(self).holding().contains(res),
        ensures
            final(self).wf(),
            final(self).holding() == old(self).holding().push(res),
    {
        self.held.push(res);
        proof {
            let h = self.held@;
            assert forall|i: int, j: int| 0 <= i < h.len() && 0 <= j < h.len() && i != j implies h[i] != h[j] by {
                if j == h.len() - 1 {
                    assert(old(self).held@.contains(h[i]) || i == h.len() - 1);
                } else if i == h.len() - 1 {
                    assert(old(self).held@.contains(h[j]));
                }
            }
        }
    }

    /// Gives back everything held: the resources to release, the last
    /// taken first, each exactly once; nothing is held afterwards.
    pub fn release_all(&mut self) -> (r: Vec<Resource>)
        requires
            old(self).wf(),
        ensures
            final(self).wf(),
            final(self).holding() == Seq::<Resource>::empty(),
            r@ == old(self).holding().reverse(),
            r@.no_duplicates(),
            forall|x: Resource| r@.contains(x) <==> old(self).holding().contains(x),
    {
        let mut out: Vec<Resource> = Vec::new();
        let ghost h = self.held@;
        while self.held.len() > 0
            invariant
                h == old(self).held@,
                h.no_duplicates(),
                self.held@ == h.take(self.held@.len() as int),
                self.held@.len() <= h.len(),
                out@ == h.skip(self.held@.len() as int).reverse(),
            decreases self.held@.len(),
        {
            let ghost n = self.held@.len();
            let x = self.held.pop().unwrap();
            out.push(x);
            proof {
                assert(self.held@ =~= h.take(n - 1));
                assert(h.skip(n - 1) =~= seq![h[n - 1]] + h.skip(n as int));
                assert(out@ =~= h.skip(n - 1).reverse());
            }
        }
        proof {
            assert(h.skip(0) =~= h);
            assert forall|x: Resource| out@.contains(x) <==> h.contains(x) by {
                if h.contains(x) {
                    let i = choose|i: int| 0 <= i < h.len() && h[i] == x;
                    assert(out@[h.len() - 1 - i] == x);
                }
                if out@.contains(x) {
                    let i = choose|i: int| 0 <= i < out@.len() && out@[i] == x;
                    assert(h[h.len() - 1 - i] == x);
                }
            }
            assert forall|i: int, j: int| 0 <= i < out@.len() && 0 <= j < out@.len() && i != j implies out@[i]
                != out@[j] by {
                assert(out@[i] == h[h.len() - 1 - i]);
                assert(out@[j] == h[h.len() - 1 - j]);
            }
        }
        out
    }
}

/// How a handshake round ends, whatever the response length: a failed
/// build fails with its status; after a successful build a session in the
/// data-transferring state is established; otherwise an empty or oversized
/// response fails with `EFI_NOT_READY`, and any other is sent whole.
pub proof fn law_handshake_round(build_status: EfiStatus, session_state: u32, out_len: usize, capacity: usize)
    ensures
        build_status.spec_is_error() ==> spec_handshake_step(build_status, session_state, out_len, capacity)
            == HandshakeStep::Failed(build_status),
        !build_status.spec_is_error() && session_state == EFI_TLS_SESSION_DATA_TRANSFERRING ==> spec_handshake_step(
            build_status,
            session_state,
            out_len,
            capacity,
        ) == HandshakeStep::Established,
        !build_status.spec_is_error() && session_state != EFI_TLS_SESSION_DATA_TRANSFERRING && (out_len == 0
            || out_len > capacity) ==> spec_handshake_step(build_status, session_state, out_len, capacity)
            == HandshakeStep::Failed(EfiStatus(EFI_NOT_READY)),
        !build_status.spec_is_error() && session_state != EFI_TLS_SESSION_DATA_TRANSFERRING && 0 < out_len
            <= capacity ==> spec_handshake_step(build_status, session_state, out_len, capacity)
            == HandshakeStep::Send(out_len),
{
}

} // verus!
