use ostool_boot::http_wire::{
    build_http_get_request, find_http_body_offset, find_http_status_offset, http_response_status_is_200,
};
use ostool_boot::kernel_stream::{record_step, RecordStep};
use ostool_boot::status::{EfiStatus, EFI_BUFFER_TOO_SMALL};
use ostool_boot::tls_record::{
    build_tls_plaintext_record, find_tls_app_record_start, tls_record_declared_len, tls_record_total_len,
};

#[test]
fn build_tls_plaintext_record_frames_in_host_order() {
    let mut out = [0xaau8; 12];
    let n = build_tls_plaintext_record(&mut out, b"GET /");
    assert_eq!(n, 10);
    assert_eq!(&out[..10], &[23, 3, 3, 5, 0, b'G', b'E', b'T', b' ', b'/']);
    assert_eq!(&out[10..], &[0xaa, 0xaa]);
    let payload = vec![7u8; 0x0123];
    let mut big = vec![0u8; 0x0123 + 5];
    assert_eq!(build_tls_plaintext_record(&mut big, &payload), 0x0128);
    assert_eq!(&big[3..5], &[0x23, 0x01]);
}

#[test]
fn build_tls_plaintext_record_refuses_a_short_buffer() {
    let mut out = [9u8; 7];
    assert_eq!(build_tls_plaintext_record(&mut out, b"abc"), 0);
    assert_eq!(out, [9u8; 7]);
    let payload = vec![0u8; 0x10000];
    let mut big = vec![0u8; 0x10005];
    assert_eq!(build_tls_plaintext_record(&mut big, &payload), 0);
}

#[test]
fn framed_record_is_found_at_its_start() {
    let mut out = [0u8; 16];
    let n = build_tls_plaintext_record(&mut out, b"hello");
    assert_eq!(find_tls_app_record_start(&out, n), Some(0));
    assert!(tls_record_declared_len(&out, n).is_some());
}

#[test]
fn tls_record_total_len_reads_network_order_and_caps() {
    let rec = [23u8, 3, 3, 0, 4, 1, 2, 3, 4, 9, 9];
    assert_eq!(tls_record_total_len(&rec, rec.len()), 9);
    assert_eq!(tls_record_total_len(&rec, 7), 7);
    assert_eq!(tls_record_total_len(&rec, 3), 3);
    let big = [23u8, 3, 3, 0x01, 0x00];
    assert_eq!(tls_record_total_len(&big, 5), 5);
}

#[test]
fn tls_record_declared_len_needs_an_application_data_header() {
    assert_eq!(tls_record_declared_len(&[23, 3, 3, 0x01, 0x02], 5), Some(0x0102 + 5));
    assert_eq!(tls_record_declared_len(&[22, 3, 3, 0, 4], 5), None);
    assert_eq!(tls_record_declared_len(&[23, 3, 1, 0, 4], 5), None);
    assert_eq!(tls_record_declared_len(&[23, 3, 3, 0], 4), None);
}

#[test]
fn find_tls_app_record_start_finds_the_first_header() {
    let bytes = [0u8, 1, 23, 3, 3, 0, 1, 23, 3, 3, 0, 0];
    assert_eq!(find_tls_app_record_start(&bytes, bytes.len()), Some(2));
    assert_eq!(find_tls_app_record_start(&bytes, 6), None);
    assert_eq!(find_tls_app_record_start(&bytes, 7), Some(2));
    assert_eq!(find_tls_app_record_start(&[1, 2, 3], 3), None);
}

#[test]
fn record_step_covers_each_case() {
    assert_eq!(record_step(&[23, 3, 3, 0, 2, 0xaa, 0xbb, 0x17]), RecordStep::Record(7));
    assert_eq!(record_step(&[23, 3, 3, 0, 9, 0xaa]), RecordStep::CarryPartial);
    assert_eq!(record_step(&[0, 0, 23, 3, 3, 0, 0]), RecordStep::Skip(2));
    assert_eq!(record_step(&[1, 2, 3, 4, 5, 6]), RecordStep::CarryTail(4));
    assert_eq!(record_step(&[1, 2]), RecordStep::CarryTail(2));
}

#[test]
fn find_http_body_offset_finds_the_header_end() {
    let msg = b"HTTP/1.1 200 OK\r\nContent-Length: 2\r\n\r\nhi";
    assert_eq!(find_http_body_offset(msg, msg.len()), Some(msg.len() - 2));
    assert_eq!(find_http_body_offset(msg, msg.len() - 3), None);
    assert_eq!(find_http_body_offset(b"\r\n\r\n", 4), Some(4));
}

#[test]
fn find_http_status_offset_needs_room_for_the_code() {
    let msg = b"xxHTTP/1.1 200 OK";
    assert_eq!(find_http_status_offset(msg, msg.len()), Some(2));
    assert_eq!(find_http_status_offset(b"HTTP/1.1 20", 11), None);
    assert_eq!(find_http_status_offset(b"HTTP/1.1 200", 12), Some(0));
    assert!(http_response_status_is_200(b"HTTP/1.1 200", 12));
}

#[test]
fn http_response_status_is_200_checks_the_code() {
    let ok = b"HTTP/1.1 200 OK\r\n";
    assert!(http_response_status_is_200(ok, ok.len()));
    let missing = b"HTTP/1.1 404 Not Found\r\n";
    assert!(!http_response_status_is_200(missing, missing.len()));
    assert!(!http_response_status_is_200(b"garbage here", 12));
}

#[test]
fn build_http_get_request_writes_the_request() {
    let mut out = [0u8; 512];
    let n = build_http_get_request(
        b"/boot/boards/loongchip-httpboot-smoke/current/boot.json",
        b"keep-alive",
        &mut out,
    )
    .unwrap();
    let expected: &[u8] = b"GET /boot/boards/loongchip-httpboot-smoke/current/boot.json HTTP/1.1\r\nHost: 10.3.10.229\r\nConnection: keep-alive\r\n\r\n";
    assert_eq!(&out[..n], expected);
    assert_eq!(find_http_body_offset(&out, n), Some(n));
}

#[test]
fn build_http_get_request_refuses_a_short_buffer() {
    let mut out = [5u8; 40];
    assert_eq!(build_http_get_request(b"/k", b"close", &mut out), Err(EfiStatus(EFI_BUFFER_TOO_SMALL)));
    assert_eq!(out, [5u8; 40]);
}
