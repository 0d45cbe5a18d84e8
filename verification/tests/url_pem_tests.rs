use ostool_boot::pem::{b64_value, pem_to_der};
use ostool_boot::status::{EfiStatus, EFI_BUFFER_TOO_SMALL, EFI_UNSUPPORTED};
use ostool_boot::url::{https_path_from_url, make_https_443_url, starts_with};

const CA_PEM: &[u8] = b"-----BEGIN CERTIFICATE-----\n\
MIIDHjCCAgagAwIBAgIUBJubHQIousJm3ZT9sNPYq0u1AhwwDQYJKoZIhvcNAQEL\n\
BQAwFjEUMBIGA1UEAwwLMTAuMy4xMC4yMjkwHhcNMjYwNTEzMDkxMTIwWhcNMjYw\n\
NTIwMDkxMTIwWjAWMRQwEgYDVQQDDAsxMC4zLjEwLjIyOTCCASIwDQYJKoZIhvcN\n\
AQEBBQADggEPADCCAQoCggEBALb3klUcff8fXYIcsgeQr1gs2rnwbOl/4Unwtulx\n\
wG1K8joXYwWT4NP4XSOJy8aVuLk0FSd8VB29l6gjduSYzdC1CE9i3bzJnu4E96X/\n\
EqRWP6QPkQJUizpH3qwxK1sDNJTmoAdq48v3cLgyyDdxzU/iVlWM51izk4njFMzZ\n\
4PCLFfznANnj8o5diDCQ96uyKxmaXArIeDAAwcTSlJYc7QHWg6WEg+FQcn3TaMKJ\n\
8rNELrKMrygc71ZdF9r6anud4YMouse6wJmEzGEVSCQ/y3dxd8gr1Ixq3DV9Yj9J\n\
fZ57GWjWLTi1CWyMAAod8b6xr+o2yHRS2mGIfTEskTHTc+8CAwEAAaNkMGIwHQYD\n\
VR0OBBYEFIimL7eY9PEocEUee1gz/YxTalmbMB8GA1UdIwQYMBaAFIimL7eY9PEo\n\
cEUee1gz/YxTalmbMA8GA1UdEwEB/wQFMAMBAf8wDwYDVR0RBAgwBocECgMK5TAN\n\
BgkqhkiG9w0BAQsFAAOCAQEAf1TkdDogQAYDgSUdraZ6WtOrD7MrLH69DZIcMrVf\n\
GymOgar70uD9s1MEAwAsCgfqN8+kRcR/viWY8e86AzYVralqiLVs9tpR+vrnFejd\n\
f9KLftc3owFwmiMLR5szwZMENOz2F+TJ8fNZBTXaJuITxrcIwuBym0FqL1pkN4hL\n\
ikfU5paqfDst5LA/Wu/56XPtP8tFGh498jNsKlAumlQgaX0w+xxGiaGf1WkvTOP8\n\
bVwyUYVeTIG2utpOKra0gkg42qcPdvRzZsT9REzlp2cxyBx5fkSmS0kXtqg4fT69\n\
9/dZPxTWismXdZ4HN74kKak5tAB9CwKXvwaLRqOmXEg4hw==\n\
-----END CERTIFICATE-----\n";

#[test]
fn starts_with_compares_a_prefix() {
    assert!(starts_with(b"https://host", b"https://"));
    assert!(starts_with(b"abc", b""));
    assert!(!starts_with(b"http://host", b"https://"));
    assert!(!starts_with(b"ab", b"abc"));
}

#[test]
fn make_https_443_url_drops_the_port() {
    let mut out = [0u8; 128];
    let input = b"https://10.3.10.229:3443/boot/boards/loongchip-httpboot-smoke/current/boot.json";
    let n = make_https_443_url(input, &mut out).unwrap();
    assert_eq!(
        &out[..n],
        &b"https://10.3.10.229/boot/boards/loongchip-httpboot-smoke/current/boot.json"[..]
    );
    assert_eq!(n, input.len() - 5);
}

#[test]
fn make_https_443_url_errors() {
    let mut out = [0u8; 128];
    assert_eq!(make_https_443_url(b"http://h:3443/x", &mut out), Err(EfiStatus(EFI_UNSUPPORTED)));
    assert_eq!(make_https_443_url(b"https://", &mut out), Err(EfiStatus(EFI_UNSUPPORTED)));
    assert_eq!(make_https_443_url(b"https://h:8443/x", &mut out), Err(EfiStatus(EFI_UNSUPPORTED)));
    let mut small = [0u8; 10];
    assert_eq!(make_https_443_url(b"https://h:3443/xyz", &mut small), Err(EfiStatus(EFI_BUFFER_TOO_SMALL)));
}

#[test]
fn https_path_from_url_finds_the_path() {
    assert_eq!(https_path_from_url(b"https://10.3.10.229:3443/boot/a.bin"), Ok(&b"/boot/a.bin"[..]));
    assert_eq!(https_path_from_url(b"https://host"), Err(EfiStatus(EFI_UNSUPPORTED)));
    assert_eq!(https_path_from_url(b"http://host/x"), Err(EfiStatus(EFI_UNSUPPORTED)));
}

#[test]
fn removing_the_default_port_keeps_the_path() {
    let input = b"https://10.3.10.229:3443/boot/k.bin";
    let mut out = [0u8; 64];
    let n = make_https_443_url(input, &mut out).unwrap();
    assert_eq!(https_path_from_url(&out[..n]), https_path_from_url(input));
}

#[test]
fn b64_value_maps_the_alphabet() {
    assert_eq!(b64_value(b'A'), Some(0));
    assert_eq!(b64_value(b'Z'), Some(25));
    assert_eq!(b64_value(b'a'), Some(26));
    assert_eq!(b64_value(b'z'), Some(51));
    assert_eq!(b64_value(b'0'), Some(52));
    assert_eq!(b64_value(b'9'), Some(61));
    assert_eq!(b64_value(b'+'), Some(62));
    assert_eq!(b64_value(b'/'), Some(63));
    assert_eq!(b64_value(b'='), None);
    assert_eq!(b64_value(b'\n'), None);
}

#[test]
fn pem_to_der_decodes_the_ca_certificate() {
    let mut der = [0u8; 1536];
    let n = pem_to_der(CA_PEM, &mut der).unwrap();
    assert_eq!(n, 4 + 0x31e);
    assert_eq!(&der[..4], &[0x30, 0x82, 0x03, 0x1e]);
    assert_eq!(der[n - 1], 0x87);
}

#[test]
fn pem_to_der_decodes_a_small_body() {
    let mut out = [0u8; 8];
    assert_eq!(pem_to_der(b"-----BEGIN X-----\nTWFu\nTWE=\n-----END X-----\n", &mut out), Ok(5));
    assert_eq!(&out[..5], b"ManMa");
}

#[test]
fn pem_to_der_reports_a_short_buffer() {
    let mut out = [0u8; 100];
    assert_eq!(pem_to_der(CA_PEM, &mut out), Err(EfiStatus(EFI_BUFFER_TOO_SMALL)));
}

#[test]
fn pem_to_der_without_a_line_end_is_empty() {
    let mut out = [0u8; 8];
    assert_eq!(pem_to_der(b"TWFu", &mut out), Ok(0));
}
