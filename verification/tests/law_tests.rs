use ostool_boot::boot_server::http_response;
use ostool_boot::kernel_stream::{KernelStream, StreamAction};
use ostool_boot::manifest_fetch::ManifestAssembly;
use ostool_boot::status::{EfiStatus, EFI_SUCCESS};
use ostool_boot::console::{write_dec, write_hex64};
use ostool_boot::manifest::{parse_u64, u64_text_in_range};

#[test]
fn decimal_text_reads_back() {
    for v in [0u64, 7, 10, 1048576, 0x9000_0000_0020_0000, u64::MAX] {
        let mut out = Vec::new();
        write_dec(&mut out, v);
        assert!(u64_text_in_range(&out));
        assert_eq!(parse_u64(&out), Ok(v));
    }
}

#[test]
fn hex_text_reads_back() {
    for v in [0u64, 0xf, 0x9000_0000_0020_0000, u64::MAX] {
        let mut out = b"0x".to_vec();
        write_hex64(&mut out, v);
        assert!(u64_text_in_range(&out));
        assert_eq!(parse_u64(&out), Ok(v));
    }
}

#[test]
fn downloaded_kernel_is_the_served_file() {
    let file: Vec<u8> = (0..300u32).map(|i| (i * 7 % 251) as u8).collect();
    let reply = http_response("200 OK", "application/octet-stream", file.clone(), true);
    let mut s = KernelStream::new(file.len() as u64, 512, &[]);
    let mut pieces = reply.chunks(100);
    let mut image = Vec::new();
    loop {
        match s.next_action() {
            StreamAction::Receive { max_len, .. } => {
                let piece = pieces.next().unwrap();
                let mut rec = vec![23u8, 3, 3, 0, piece.len() as u8];
                rec.extend_from_slice(piece);
                assert!(rec.len() <= max_len);
                s.on_received(EfiStatus(EFI_SUCCESS), &rec);
            }
            StreamAction::Decrypt { record } => {
                let chunk = s.on_decrypted(EfiStatus(EFI_SUCCESS), &record[5..]);
                image.extend_from_slice(&chunk);
            }
            StreamAction::Done(st) => {
                assert_eq!(st, EfiStatus(EFI_SUCCESS));
                break;
            }
        }
    }
    assert_eq!(image, file);
}

#[test]
fn assembled_manifest_is_the_served_file() {
    let file = b"{\"kernel_size\": 4}".to_vec();
    let reply = http_response("200 OK", "application/json", file.clone(), true);
    let mut a = ManifestAssembly::new();
    let mut last = None;
    for piece in reply.chunks(16) {
        last = a.on_decrypted(EfiStatus(EFI_SUCCESS), piece).unwrap();
    }
    assert_eq!(last, Some(file));
}
