use ostool_boot::kernel::{check_kernel_placement, KernelImage, HTTP_STATUS_200_OK, KERNEL_CHUNK, MAX_KERNEL_SIZE};
use ostool_boot::kernel_stream::{KernelStream, StreamAction};
use ostool_boot::memory::page_count;
use ostool_boot::status::{
    EfiStatus, EFI_BUFFER_TOO_SMALL, EFI_DEVICE_ERROR, EFI_NOT_READY, EFI_SUCCESS, EFI_UNSUPPORTED,
};

fn record(payload_len: u8) -> Vec<u8> {
    let mut r = vec![23u8, 3, 3, 0, payload_len];
    r.extend(std::iter::repeat(0xc5u8).take(payload_len as usize));
    r
}

#[test]
fn page_count_rounds_up() {
    assert_eq!(page_count(0), 0);
    assert_eq!(page_count(1), 1);
    assert_eq!(page_count(4096), 1);
    assert_eq!(page_count(4097), 2);
    assert_eq!(page_count(1048576), 256);
}

#[test]
fn check_kernel_placement_checks_size_and_alignment() {
    assert_eq!(check_kernel_placement(1048576, 0x9000_0000_0020_0000), Ok(256));
    assert_eq!(check_kernel_placement(0, 0x20_0000), Err(EfiStatus(EFI_UNSUPPORTED)));
    assert_eq!(check_kernel_placement(MAX_KERNEL_SIZE + 1, 0x20_0000), Err(EfiStatus(EFI_UNSUPPORTED)));
    assert_eq!(check_kernel_placement(4096, 0x20_0800), Err(EfiStatus(EFI_UNSUPPORTED)));
    assert_eq!(check_kernel_placement(MAX_KERNEL_SIZE, 0), Ok(0x10000));
}

#[test]
fn kernel_image_collects_bytes_and_checksum() {
    let mut image = KernelImage::new(5);
    assert_eq!(image.remaining(), 5);
    assert_eq!(image.next_chunk_len(), 5);
    image.append(&[0xff, 0xff]);
    assert_eq!(image.downloaded(), 2);
    assert_eq!(image.checksum(), 0x1fe);
    assert!(!image.is_complete());
    image.append(&[1, 2, 3]);
    assert!(image.is_complete());
    assert_eq!(image.remaining(), 0);
    assert_eq!(image.checksum(), 0x1fe + 6);
    assert_eq!(image.kernel_size(), 5);
}

#[test]
fn kernel_image_next_chunk_len_is_capped() {
    let image = KernelImage::new(100_000);
    assert_eq!(image.next_chunk_len(), KERNEL_CHUNK);
}

#[test]
fn accept_chunk_takes_only_good_chunks() {
    let mut image = KernelImage::new(8);
    assert_eq!(image.accept_chunk(EfiStatus(EFI_SUCCESS), HTTP_STATUS_200_OK, b"abcd"), Ok(()));
    assert_eq!(image.downloaded(), 4);
    assert_eq!(
        image.accept_chunk(EfiStatus(EFI_NOT_READY), HTTP_STATUS_200_OK, b"ef"),
        Err(EfiStatus(EFI_NOT_READY))
    );
    assert_eq!(image.accept_chunk(EfiStatus(EFI_SUCCESS), 4, b"ef"), Err(EfiStatus(EFI_DEVICE_ERROR)));
    assert_eq!(
        image.accept_chunk(EfiStatus(EFI_SUCCESS), HTTP_STATUS_200_OK, b""),
        Err(EfiStatus(EFI_DEVICE_ERROR))
    );
    assert_eq!(image.downloaded(), 4);
}

#[test]
fn kernel_stream_downloads_a_kernel_over_two_records() {
    let mut s = KernelStream::new(4, 64, &[]);
    match s.next_action() {
        StreamAction::Receive { append, max_len } => {
            assert!(!append);
            assert_eq!(max_len, 64);
        }
        _ => panic!("expected a receive"),
    }
    let first = record(8);
    s.on_received(EfiStatus(EFI_SUCCESS), &first);
    match s.next_action() {
        StreamAction::Decrypt { record } => assert_eq!(record, first),
        _ => panic!("expected a record"),
    }
    let chunk = s.on_decrypted(EfiStatus(EFI_SUCCESS), b"HTTP/1.1 200 OK\r\nX: y\r\n\r\nAB");
    assert_eq!(chunk, b"AB".to_vec());
    assert!(s.header_len().is_some());
    assert!(matches!(s.next_action(), StreamAction::Receive { append: false, max_len: 64 }));
    let second = record(3);
    s.on_received(EfiStatus(EFI_SUCCESS), &second);
    assert!(matches!(s.next_action(), StreamAction::Decrypt { .. }));
    let chunk = s.on_decrypted(EfiStatus(EFI_SUCCESS), b"CDEF");
    assert_eq!(chunk, b"CD".to_vec());
    match s.next_action() {
        StreamAction::Done(st) => assert_eq!(st, EfiStatus(EFI_SUCCESS)),
        _ => panic!("expected the end"),
    }
    let image = s.image_state();
    assert_eq!(image.downloaded(), 4);
    assert_eq!(image.checksum(), b'A' as u32 + b'B' as u32 + b'C' as u32 + b'D' as u32);
}

#[test]
fn kernel_stream_skips_bytes_before_a_record() {
    let mut initial = vec![0u8, 9];
    initial.extend(record(1));
    let mut s = KernelStream::new(10, 32, &initial);
    match s.next_action() {
        StreamAction::Decrypt { record: r } => assert_eq!(r, record(1)),
        _ => panic!("expected a record"),
    }
}

#[test]
fn kernel_stream_keeps_a_partial_record() {
    let mut s = KernelStream::new(10, 32, &[23, 3, 3, 0, 10, 1, 2]);
    assert!(matches!(s.next_action(), StreamAction::Receive { append: true, max_len: 25 }));
    s.on_received(EfiStatus(EFI_SUCCESS), &[0u8; 8]);
    match s.next_action() {
        StreamAction::Decrypt { record } => assert_eq!(record.len(), 15),
        _ => panic!("expected a record"),
    }
}

#[test]
fn kernel_stream_carries_a_cut_header_tail() {
    let mut s = KernelStream::new(10, 32, &[1, 2, 3, 4, 5, 23, 3]);
    assert!(matches!(s.next_action(), StreamAction::Receive { append: true, max_len: 28 }));
}

#[test]
fn kernel_stream_rejects_a_non_200_response() {
    let mut s = KernelStream::new(4, 64, &record(2));
    assert!(matches!(s.next_action(), StreamAction::Decrypt { .. }));
    let chunk = s.on_decrypted(EfiStatus(EFI_SUCCESS), b"HTTP/1.1 404 Not Found\r\n\r\nnope");
    assert!(chunk.is_empty());
    match s.next_action() {
        StreamAction::Done(st) => assert_eq!(st, EfiStatus(EFI_DEVICE_ERROR)),
        _ => panic!("expected the end"),
    }
}

#[test]
fn kernel_stream_ends_on_a_failed_receive() {
    let mut s = KernelStream::new(4, 64, &[]);
    assert!(matches!(s.next_action(), StreamAction::Receive { .. }));
    s.on_received(EfiStatus(EFI_NOT_READY), &[]);
    match s.next_action() {
        StreamAction::Done(st) => assert_eq!(st, EfiStatus(EFI_NOT_READY)),
        _ => panic!("expected the end"),
    }
}

#[test]
fn kernel_stream_gives_up_on_an_endless_header() {
    let mut s = KernelStream::new(4, 4096, &[]);
    let mut rounds = 0;
    loop {
        match s.next_action() {
            StreamAction::Receive { .. } => s.on_received(EfiStatus(EFI_SUCCESS), &record(200)),
            StreamAction::Decrypt { .. } => {
                let chunk = s.on_decrypted(EfiStatus(EFI_SUCCESS), &[b'x'; 200]);
                assert!(chunk.is_empty());
            }
            StreamAction::Done(st) => {
                assert_eq!(st, EfiStatus(EFI_BUFFER_TOO_SMALL));
                break;
            }
        }
        rounds += 1;
        assert!(rounds < 100);
    }
}
