use ostool_boot::manifest::{
    find_key, json_addr_string, json_string, json_u64, manifest_numbers_in_range, parse_manifest, parse_u64,
    u64_text_in_range,
};

const MANIFEST: &[u8] = b"{\n  \"arch\": \"loongarch64\",\n  \"kernel_url\": \"https://10.3.10.229:3443/boot/boards/loongchip-httpboot-smoke/current/kernel.bin\",\n  \"kernel_size\": 1048576,\n  \"kernel_load_addr\": \"0x9000000000200000\",\n  \"entry_point\": \"0x9000000000200000\"\n}\n";

#[test]
fn parse_u64_reads_decimal_and_hex() {
    assert_eq!(parse_u64(b"1048576"), Ok(1048576));
    assert_eq!(parse_u64(b"0x9000000000200000"), Ok(0x9000_0000_0020_0000));
    assert_eq!(parse_u64(b"0XFF"), Ok(255));
    assert_eq!(parse_u64(b"0xdead_beef"), Ok(0xdead_beef));
    assert_eq!(parse_u64(b"1_000,"), Ok(1000));
    assert_eq!(parse_u64(b"42 }"), Ok(42));
}

#[test]
fn parse_u64_refuses_missing_and_out_of_radix_digits() {
    assert_eq!(parse_u64(b""), Err(()));
    assert_eq!(parse_u64(b"x12"), Err(()));
    assert_eq!(parse_u64(b"0x"), Err(()));
    assert_eq!(parse_u64(b"12ab"), Err(()));
    assert_eq!(parse_u64(b"_"), Err(()));
}

#[test]
fn u64_text_in_range_flags_overflow() {
    assert!(u64_text_in_range(b"18446744073709551615"));
    assert!(!u64_text_in_range(b"18446744073709551616"));
    assert!(u64_text_in_range(b"0xffffffffffffffff"));
    assert!(!u64_text_in_range(b"0x10000000000000000"));
    assert!(u64_text_in_range(b"12ab"));
}

#[test]
fn find_key_returns_what_follows_the_colon() {
    assert_eq!(find_key(b"{\"a\" : 1}", b"a"), Some(&b" 1}"[..]));
    assert_eq!(find_key(b"{\"ab\":1,\"a\":2}", b"a"), Some(&b"2}"[..]));
    assert_eq!(find_key(b"{\"a\" 1}", b"a"), None);
    assert_eq!(find_key(b"{\"b\":1}", b"a"), None);
}

#[test]
fn json_string_copies_and_terminates() {
    let mut out = [0xffu8; 8];
    assert_eq!(json_string(b"{\"arch\": \"la64\"}", b"arch", &mut out), Ok(4));
    assert_eq!(&out[..5], b"la64\0");
}

#[test]
fn json_string_refuses_escapes_overflow_and_non_strings() {
    let mut out = [0u8; 8];
    assert_eq!(json_string(b"{\"a\": \"x\\\"y\"}", b"a", &mut out), Err(()));
    let mut small = [0u8; 4];
    assert_eq!(json_string(b"{\"a\": \"abcd\"}", b"a", &mut small), Err(()));
    assert_eq!(json_string(b"{\"a\": 5}", b"a", &mut out), Err(()));
    assert_eq!(json_string(b"{\"a\": \"open", b"a", &mut out), Err(()));
    assert_eq!(json_string(b"{}", b"a", &mut out), Err(()));
}

#[test]
fn json_numbers_read_plain_and_quoted_values() {
    assert_eq!(json_u64(MANIFEST, b"kernel_size"), Ok(1048576));
    assert_eq!(json_addr_string(MANIFEST, b"kernel_load_addr"), Ok(0x9000_0000_0020_0000));
    assert_eq!(json_u64(MANIFEST, b"missing"), Err(()));
    assert_eq!(json_addr_string(MANIFEST, b"kernel_size"), Err(()));
}

#[test]
fn parse_manifest_reads_the_boot_manifest() {
    assert!(manifest_numbers_in_range(MANIFEST));
    let m = parse_manifest(MANIFEST).ok().unwrap();
    assert_eq!(
        &m.kernel_url[..m.kernel_url_len],
        &b"https://10.3.10.229:3443/boot/boards/loongchip-httpboot-smoke/current/kernel.bin"[..]
    );
    assert_eq!(m.kernel_url[m.kernel_url_len], 0);
    assert_eq!(m.kernel_url.len(), 1024);
    assert_eq!(m.kernel_size, 1048576);
    assert_eq!(m.kernel_load_addr, 0x9000_0000_0020_0000);
    assert_eq!(m.entry_point, 0x9000_0000_0020_0000);
    assert_eq!(&m.arch[..m.arch_len], &b"loongarch64"[..]);
    assert_eq!(m.arch.len(), 32);
}

#[test]
fn parse_manifest_refuses_a_missing_field() {
    let json = b"{\"kernel_url\": \"u\", \"kernel_size\": 1, \"kernel_load_addr\": \"0x1000\", \"arch\": \"la\"}";
    assert!(manifest_numbers_in_range(json));
    assert!(parse_manifest(json).is_err());
}

#[test]
fn manifest_numbers_in_range_flags_an_overflowing_size() {
    let json = b"{\"kernel_url\": \"u\", \"kernel_size\": 99999999999999999999}";
    assert!(!manifest_numbers_in_range(json));
}

#[test]
fn json_string_leaves_the_bytes_after_the_terminator() {
    let mut out = [0xffu8; 32];
    assert_eq!(json_string(br#"{"arch": "loongarch64"}"#, b"arch", &mut out), Ok(11));
    assert_eq!(&out[..11], b"loongarch64");
    assert_eq!(out[11], 0);
    assert_eq!(&out[12..], &[0xffu8; 20]);
}

#[test]
fn json_string_keeps_what_it_copied_before_stopping() {
    let mut out = [0xeeu8; 8];
    assert_eq!(json_string(br#"{"a": "xy\z"}"#, b"a", &mut out), Err(()));
    assert_eq!(out, [b'x', b'y', 0xee, 0xee, 0xee, 0xee, 0xee, 0xee]);
    let mut small = [0xeeu8; 4];
    assert_eq!(json_string(br#"{"a": "abcdef"}"#, b"a", &mut small), Err(()));
    assert_eq!(small, [b'a', b'b', b'c', 0xee]);
    let mut untouched = [0xeeu8; 4];
    assert_eq!(json_string(br#"{"a": 5}"#, b"a", &mut untouched), Err(()));
    assert_eq!(untouched, [0xeeu8; 4]);
}

#[test]
fn parse_manifest_bounds_and_zero_fills_the_buffers() {
    let json = br#"{"arch":"loongarch64","kernel_url":"https://h/k.bin","kernel_size":8192,"kernel_load_addr":"0x200000","entry_point":"0x200000"}"#;
    assert!(manifest_numbers_in_range(json));
    let m = parse_manifest(json).ok().unwrap();
    assert_eq!(m.kernel_url_len, 15);
    assert_eq!(&m.kernel_url[..15], b"https://h/k.bin");
    assert!(m.kernel_url[15..].iter().all(|&b| b == 0));
    assert_eq!(m.kernel_size, 8192);
    assert_eq!(m.kernel_load_addr, 0x200000);
    assert_eq!(m.entry_point, 0x200000);
    assert_eq!(m.arch_len, 11);
    assert_eq!(&m.arch[..11], b"loongarch64");
    assert!(m.arch[11..].iter().all(|&b| b == 0));
}
