use ostool_boot::console::{
    console_chunk, print_ascii_prefix, print_tcp4_first5, push_all, write_ascii, write_dec, write_hex64,
    write_prefixed_status, write_status, write_utf16_url,
};
use ostool_boot::status::{EfiStatus, EFI_BUFFER_TOO_SMALL, EFI_NOT_READY, EFI_SUCCESS};

#[test]
fn is_error_reads_the_high_bit() {
    assert!(!EfiStatus(EFI_SUCCESS).is_error());
    assert!(EfiStatus(EFI_NOT_READY).is_error());
    assert!(EfiStatus(0x8000_0000_0000_0000).is_error());
    assert!(!EfiStatus(0x7fff_ffff_ffff_ffff).is_error());
}

#[test]
fn write_ascii_appends_the_text() {
    let mut out = b"ab".to_vec();
    write_ascii(&mut out, "cd\r\n");
    assert_eq!(out, b"abcd\r\n".to_vec());
    push_all(&mut out, b"!");
    assert_eq!(out, b"abcd\r\n!".to_vec());
}

#[test]
fn write_hex64_writes_sixteen_lower_case_digits() {
    let mut out = Vec::new();
    write_hex64(&mut out, 0x1234_abcd);
    assert_eq!(out, b"000000001234abcd".to_vec());
    let mut out = Vec::new();
    write_hex64(&mut out, u64::MAX);
    assert_eq!(out, b"ffffffffffffffff".to_vec());
    let mut out = Vec::new();
    write_hex64(&mut out, 0);
    assert_eq!(out, b"0000000000000000".to_vec());
}

#[test]
fn write_dec_writes_without_leading_zeros() {
    let mut out = Vec::new();
    write_dec(&mut out, 0);
    assert_eq!(out, b"0".to_vec());
    let mut out = Vec::new();
    write_dec(&mut out, 1_048_576);
    assert_eq!(out, b"1048576".to_vec());
    let mut out = Vec::new();
    write_dec(&mut out, u64::MAX);
    assert_eq!(out, b"18446744073709551615".to_vec());
}

#[test]
fn write_status_formats_a_status_line() {
    let mut out = Vec::new();
    write_status(&mut out, "kernel_download_status: ", EfiStatus(EFI_BUFFER_TOO_SMALL));
    assert_eq!(out, b"kernel_download_status: 0x8000000000000005\r\n".to_vec());
}

#[test]
fn write_prefixed_status_joins_label_and_suffix() {
    let mut out = Vec::new();
    write_prefixed_status(&mut out, "tcp4_tls_probe_hs0", "_build_response_status", EfiStatus(EFI_SUCCESS));
    assert_eq!(out, b"tcp4_tls_probe_hs0_build_response_status: 0x0000000000000000\r\n".to_vec());
}

#[test]
fn print_tcp4_first5_lists_five_bytes() {
    let mut out = Vec::new();
    print_tcp4_first5(&mut out, "rx", "_first5: ", &[0x16, 0x03, 0x03, 0x00, 0x2a, 0x99], 6);
    let expected: &[u8] = b"rx_first5: 0x0000000000000016,0x0000000000000003,0x0000000000000003,\
0x0000000000000000,0x000000000000002a\r\n";
    assert_eq!(out, expected.to_vec());
}

#[test]
fn print_tcp4_first5_is_silent_below_five_bytes() {
    let mut out = b"x".to_vec();
    print_tcp4_first5(&mut out, "rx", "_first5: ", &[1, 2, 3, 4], 4);
    assert_eq!(out, b"x".to_vec());
}

#[test]
fn print_ascii_prefix_escapes_line_ends_and_binary() {
    let mut out = Vec::new();
    print_ascii_prefix(&mut out, "app", b"HTTP/1.1 200\r\n\x01", 15);
    assert_eq!(out, b"app_ascii_prefix: HTTP/1.1 200\\r\\n.\r\n".to_vec());
}

#[test]
fn print_ascii_prefix_shows_at_most_64_bytes() {
    let mut out = Vec::new();
    print_ascii_prefix(&mut out, "x", &[b'z'; 100], 100);
    let mut expected = b"x_ascii_prefix: ".to_vec();
    expected.extend_from_slice(&[b'z'; 64]);
    expected.extend_from_slice(b"\r\n");
    assert_eq!(out, expected);
}

#[test]
fn console_chunk_cuts_at_255_units_and_terminates() {
    let long = vec![b'a'; 300];
    let first = console_chunk(&long, 0);
    assert_eq!(first.len(), 256);
    assert_eq!(first[254], b'a' as u16);
    assert_eq!(first[255], 0);
    let second = console_chunk(&long, 255);
    assert_eq!(second.len(), 46);
    assert_eq!(second[45], 0);
    let short = console_chunk(b"hi", 0);
    assert_eq!(short, vec![b'h' as u16, b'i' as u16, 0]);
}

#[test]
fn write_utf16_url_widens_and_terminates() {
    let mut out = [0xffffu16; 8];
    assert_eq!(write_utf16_url(b"http://", &mut out), Ok(()));
    assert_eq!(out, [104, 116, 116, 112, 58, 47, 47, 0]);
}

#[test]
fn write_utf16_url_refuses_a_full_buffer() {
    let mut out = [7u16; 7];
    assert_eq!(write_utf16_url(b"http://", &mut out), Err(EfiStatus(EFI_BUFFER_TOO_SMALL)));
    assert_eq!(out, [7u16; 7]);
}
