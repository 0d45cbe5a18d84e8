use ostool_boot::flow::{
    allocated_at, placed_download_result, ReleaseStack, Resource,
    route_done, HandleTrial, LoaderAttempts, ManifestRoute, ManifestRoutes, LOADER_ATTEMPTS,
    after_request_submit, handed_back, clienthello_built, copy_fragment, encrypted, fragment_len, handles_found,
    host_header_value, jump_due, received_len, record_framed, reply_plan, ExitAction, ExitBootServices, Handshake,
    HandshakeStep, PollStep, Poller, ReceiveRetry, ReplyPlan, RequestStep, RetryStep, Step, HANDSHAKE_ROUNDS,
};
use ostool_boot::manifest_fetch::EFI_TLS_SESSION_DATA_TRANSFERRING;
use ostool_boot::status::{
    EfiStatus, EFI_BUFFER_TOO_SMALL, EFI_DEVICE_ERROR, EFI_INVALID_PARAMETER, EFI_NOT_FOUND, EFI_NOT_READY,
    EFI_SUCCESS, EFI_UNSUPPORTED,
};

const OK: EfiStatus = EfiStatus(EFI_SUCCESS);

#[test]
fn handed_back_cases() {
    assert_eq!(handed_back(OK, true), Step::Proceed);
    assert_eq!(handed_back(OK, false), Step::Stop(EfiStatus(EFI_UNSUPPORTED)));
    assert_eq!(handed_back(EfiStatus(EFI_DEVICE_ERROR), true), Step::Stop(EfiStatus(EFI_DEVICE_ERROR)));
}

#[test]
fn handles_found_stops_with_the_lookup_status() {
    assert_eq!(handles_found(OK, 2, true), Step::Proceed);
    assert_eq!(handles_found(OK, 0, true), Step::Stop(OK));
    assert_eq!(handles_found(OK, 1, false), Step::Stop(OK));
    assert_eq!(handles_found(EfiStatus(EFI_NOT_FOUND), 1, true), Step::Stop(EfiStatus(EFI_NOT_FOUND)));
}

#[test]
fn clienthello_built_checks_length() {
    assert_eq!(clienthello_built(OK, 300, 2048), Step::Proceed);
    assert_eq!(clienthello_built(OK, 0, 2048), Step::Stop(OK));
    assert_eq!(clienthello_built(OK, 2049, 2048), Step::Stop(OK));
    assert_eq!(clienthello_built(EfiStatus(EFI_BUFFER_TOO_SMALL), 10, 2048), Step::Stop(EfiStatus(EFI_BUFFER_TOO_SMALL)));
}

#[test]
fn handshake_reaches_data_transfer() {
    let mut h = Handshake::new(OK);
    assert!(h.wants_round());
    assert_eq!(h.on_built(OK, 1, 120, 8192), HandshakeStep::Send(120));
    h.on_exchanged(OK);
    assert!(h.wants_round());
    assert_eq!(h.on_built(OK, EFI_TLS_SESSION_DATA_TRANSFERRING, 0, 8192), HandshakeStep::Established);
    assert!(!h.wants_round());
    assert_eq!(h.status(), OK);
}

#[test]
fn handshake_failures() {
    let mut h = Handshake::new(OK);
    assert_eq!(h.on_built(EfiStatus(EFI_DEVICE_ERROR), 1, 10, 8192), HandshakeStep::Failed(EfiStatus(EFI_DEVICE_ERROR)));
    assert!(!h.wants_round());
    assert_eq!(h.status(), EfiStatus(EFI_DEVICE_ERROR));
    let mut g = Handshake::new(OK);
    assert_eq!(g.on_built(OK, 1, 0, 8192), HandshakeStep::Failed(EfiStatus(EFI_NOT_READY)));
    assert_eq!(g.status(), EfiStatus(EFI_NOT_READY));
    let mut k = Handshake::new(OK);
    assert_eq!(k.on_built(OK, 1, 9000, 8192), HandshakeStep::Failed(EfiStatus(EFI_NOT_READY)));
    let failed_hello = Handshake::new(EfiStatus(EFI_NOT_READY));
    assert!(!failed_hello.wants_round());
}

#[test]
fn handshake_stops_after_four_rounds() {
    let mut h = Handshake::new(OK);
    let mut rounds = 0;
    while h.wants_round() {
        assert_eq!(h.on_built(OK, 1, 10, 8192), HandshakeStep::Send(10));
        h.on_exchanged(OK);
        rounds += 1;
    }
    assert_eq!(rounds, HANDSHAKE_ROUNDS);
    assert_eq!(h.status(), OK);
}

#[test]
fn poller_waits_up_to_the_limit() {
    let mut p = Poller::new(2);
    assert_eq!(p.on_status(EfiStatus(EFI_NOT_READY)), PollStep::PollAgain);
    assert_eq!(p.on_status(EfiStatus(EFI_NOT_READY)), PollStep::PollAgain);
    assert_eq!(p.on_status(EfiStatus(EFI_NOT_READY)), PollStep::Done(EfiStatus(EFI_NOT_READY)));
    let mut q = Poller::new(5);
    assert_eq!(q.on_status(OK), PollStep::Done(OK));
    assert_eq!(q.on_status(EfiStatus(EFI_DEVICE_ERROR)), PollStep::Done(EfiStatus(EFI_DEVICE_ERROR)));
}

#[test]
fn receive_retry_returns_the_last_failure() {
    let mut r = ReceiveRetry::new(2);
    assert_eq!(r.next(), RetryStep::Attempt);
    assert_eq!(r.on_attempt(OK, EfiStatus(EFI_NOT_READY)), None);
    assert_eq!(r.next(), RetryStep::Attempt);
    assert_eq!(r.on_attempt(OK, EfiStatus(EFI_DEVICE_ERROR)), None);
    assert_eq!(r.next(), RetryStep::Done(EfiStatus(EFI_DEVICE_ERROR)));
    assert_eq!(ReceiveRetry::new(0).next(), RetryStep::Done(EfiStatus(EFI_NOT_READY)));
}

#[test]
fn receive_retry_ends_on_completion_or_event_failure() {
    let mut r = ReceiveRetry::new(3);
    assert_eq!(r.on_attempt(OK, OK), Some(OK));
    let mut s = ReceiveRetry::new(3);
    assert_eq!(s.on_attempt(EfiStatus(EFI_DEVICE_ERROR), OK), Some(EfiStatus(EFI_DEVICE_ERROR)));
}

#[test]
fn received_len_and_fragment_len() {
    assert_eq!(received_len(OK, 1460), 1460);
    assert_eq!(received_len(EfiStatus(EFI_NOT_READY), 1460), 0);
    assert_eq!(fragment_len(OK, true, 77), 77);
    assert_eq!(fragment_len(OK, false, 77), 0);
    assert_eq!(fragment_len(EfiStatus(EFI_DEVICE_ERROR), true, 77), 0);
}

#[test]
fn reply_plan_cases() {
    assert_eq!(reply_plan(EfiStatus(EFI_DEVICE_ERROR), OK), ReplyPlan::Failed(EfiStatus(EFI_DEVICE_ERROR)));
    assert_eq!(reply_plan(OK, OK), ReplyPlan::AwaitPending);
    assert_eq!(reply_plan(OK, EfiStatus(EFI_NOT_READY)), ReplyPlan::ReceiveNow);
}

#[test]
fn copy_fragment_copies_what_fits() {
    let mut out = [0u8; 4];
    assert_eq!(copy_fragment(&mut out, Some(&[1, 2, 3, 4, 5, 6]), 6), 4);
    assert_eq!(out, [1, 2, 3, 4]);
    let mut out = [9u8; 4];
    assert_eq!(copy_fragment(&mut out, Some(&[1, 2]), 2), 2);
    assert_eq!(out, [1, 2, 9, 9]);
    assert_eq!(copy_fragment(&mut out, None, 2), 0);
    assert_eq!(out, [1, 2, 9, 9]);
}

#[test]
fn record_framed_and_encrypted() {
    assert_eq!(record_framed(0), Step::Stop(EfiStatus(EFI_BUFFER_TOO_SMALL)));
    assert_eq!(record_framed(10), Step::Proceed);
    assert_eq!(encrypted(OK, 0), Step::Stop(OK));
    assert_eq!(encrypted(OK, 40), Step::Proceed);
    assert_eq!(encrypted(EfiStatus(EFI_DEVICE_ERROR), 40), Step::Stop(EfiStatus(EFI_DEVICE_ERROR)));
}

#[test]
fn after_request_submit_cases() {
    assert_eq!(after_request_submit(OK), RequestStep::Poll);
    assert_eq!(after_request_submit(EfiStatus(EFI_NOT_FOUND)), RequestStep::PollOnceAndProceed);
    assert_eq!(after_request_submit(EfiStatus(EFI_DEVICE_ERROR)), RequestStep::Failed(EfiStatus(EFI_DEVICE_ERROR)));
}

#[test]
fn host_header_value_terminates_or_refuses() {
    assert_eq!(host_header_value(b"10.3.10.229"), Ok(b"10.3.10.229\0".to_vec()));
    assert_eq!(host_header_value(&[b'h'; 95]).map(|v| v.len()), Ok(96));
    assert_eq!(host_header_value(&[b'h'; 96]), Err(EfiStatus(EFI_BUFFER_TOO_SMALL)));
}

#[test]
fn exit_boot_services_retries_once_with_a_fresh_key() {
    let (mut e, first) = ExitBootServices::start();
    assert_eq!(first, ExitAction::FetchMapKey);
    assert_eq!(e.on_map_key(OK, 42), ExitAction::ExitWith(42));
    assert_eq!(e.on_exit(EfiStatus(EFI_INVALID_PARAMETER)), ExitAction::FetchMapKey);
    assert_eq!(e.on_map_key(OK, 43), ExitAction::ExitWith(43));
    assert_eq!(e.on_exit(EfiStatus(EFI_INVALID_PARAMETER)), ExitAction::Done(EfiStatus(EFI_INVALID_PARAMETER)));
}

#[test]
fn exit_boot_services_stops_on_errors() {
    let (mut e, _) = ExitBootServices::start();
    assert_eq!(e.on_map_key(EfiStatus(EFI_BUFFER_TOO_SMALL), 0), ExitAction::Done(EfiStatus(EFI_BUFFER_TOO_SMALL)));
    assert_eq!(e.on_exit(OK), ExitAction::Done(OK));
}

#[test]
fn jump_due_cases() {
    assert_eq!(jump_due(false, OK), Step::Stop(OK));
    assert_eq!(jump_due(true, EfiStatus(EFI_DEVICE_ERROR)), Step::Stop(OK));
    assert_eq!(jump_due(true, OK), Step::Proceed);
}

#[test]
fn loader_attempts_are_bounded() {
    let mut a = LoaderAttempts::new();
    let mut n = 0;
    while a.begin() {
        n += 1;
    }
    assert_eq!(n, LOADER_ATTEMPTS);
    assert!(!a.begin());
    assert_eq!(route_done(OK), Step::Stop(OK));
    assert_eq!(route_done(EfiStatus(EFI_NOT_FOUND)), Step::Proceed);
}

#[test]
fn handle_trial_stops_at_the_first_success() {
    let mut t = HandleTrial::new(3);
    assert_eq!(t.result(), EfiStatus(EFI_NOT_FOUND));
    assert_eq!(t.next_index(), Some(0));
    t.on_result(EfiStatus(EFI_DEVICE_ERROR));
    assert_eq!(t.next_index(), Some(1));
    t.skip();
    assert_eq!(t.next_index(), Some(2));
    t.on_result(OK);
    assert_eq!(t.next_index(), None);
    assert_eq!(t.result(), OK);
}

#[test]
fn handle_trial_reports_the_last_failure() {
    let mut t = HandleTrial::new(2);
    t.on_result(EfiStatus(EFI_DEVICE_ERROR));
    t.on_result(EfiStatus(EFI_NOT_READY));
    assert_eq!(t.next_index(), None);
    assert_eq!(t.result(), EfiStatus(EFI_NOT_READY));
    assert_eq!(HandleTrial::new(0).next_index(), None);
}

#[test]
fn manifest_routes_fall_back_in_order() {
    let mut r = ManifestRoutes::new();
    assert_eq!(r.next_route(), Some(ManifestRoute::AsGiven));
    assert_eq!(r.on_result(EfiStatus(EFI_DEVICE_ERROR)), None);
    assert_eq!(r.next_route(), Some(ManifestRoute::HostWithPort));
    assert_eq!(r.on_result(EfiStatus(EFI_NOT_READY)), None);
    assert_eq!(r.next_route(), Some(ManifestRoute::DefaultPort));
    assert_eq!(r.on_result(EfiStatus(EFI_BUFFER_TOO_SMALL)), Some(EfiStatus(EFI_DEVICE_ERROR)));
    assert_eq!(r.next_route(), None);
}

#[test]
fn manifest_routes_stop_on_success() {
    let mut r = ManifestRoutes::new();
    assert_eq!(r.on_result(EfiStatus(EFI_DEVICE_ERROR)), None);
    assert_eq!(r.on_result(OK), Some(OK));
    assert_eq!(r.next_route(), None);
}

#[test]
fn allocated_at_checks_status_and_place() {
    assert_eq!(allocated_at(OK, 0x20_0000, 0x20_0000), Step::Proceed);
    assert_eq!(allocated_at(OK, 0x30_0000, 0x20_0000), Step::Stop(EfiStatus(EFI_DEVICE_ERROR)));
    assert_eq!(allocated_at(EfiStatus(EFI_NOT_FOUND), 0x20_0000, 0x20_0000), Step::Stop(EfiStatus(EFI_NOT_FOUND)));
}

#[test]
fn placed_download_result_needs_the_load_address() {
    assert_eq!(placed_download_result(OK, Step::Proceed), OK);
    assert_eq!(placed_download_result(OK, Step::Stop(EfiStatus(EFI_DEVICE_ERROR))), EfiStatus(EFI_DEVICE_ERROR));
    assert_eq!(placed_download_result(OK, Step::Stop(EfiStatus(EFI_NOT_FOUND))), EfiStatus(EFI_NOT_FOUND));
    assert_eq!(
        placed_download_result(EfiStatus(EFI_NOT_READY), Step::Proceed),
        EfiStatus(EFI_NOT_READY)
    );
}

#[test]
fn release_stack_gives_back_each_resource_once_last_first() {
    let mut held = ReleaseStack::new();
    held.take(Resource::TlsServiceHandles);
    held.take(Resource::TlsChild);
    held.take(Resource::TcpServiceHandles);
    assert!(held.holds(Resource::TlsChild));
    assert!(!held.holds(Resource::TcpChild));
    held.take(Resource::TcpChild);
    held.take(Resource::TcpConfiguration);
    assert_eq!(
        held.release_all(),
        vec![
            Resource::TcpConfiguration,
            Resource::TcpChild,
            Resource::TcpServiceHandles,
            Resource::TlsChild,
            Resource::TlsServiceHandles,
        ]
    );
    assert!(!held.holds(Resource::TlsChild));
    assert_eq!(held.release_all(), vec![]);
}
