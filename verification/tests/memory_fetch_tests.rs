use ostool_boot::flow::{memory_map_usable, Step};
use ostool_boot::manifest_fetch::{check_manifest_response, child_tls_label, ManifestAssembly, MANIFEST_MAX};
use ostool_boot::kernel::HTTP_STATUS_200_OK;
use ostool_boot::memory::{
    memory_descriptor_contains, memory_descriptor_end, print_memory_descriptor, print_target_memory_report,
    target_memory_map_probe, EfiMemoryDescriptor,
    EFI_CONVENTIONAL_MEMORY,
};
use ostool_boot::status::{EfiStatus, EFI_BUFFER_TOO_SMALL, EFI_DEVICE_ERROR, EFI_NOT_READY, EFI_SUCCESS};

fn desc(memory_type: u32, start: u64, pages: u64) -> EfiMemoryDescriptor {
    EfiMemoryDescriptor { memory_type, physical_start: start, virtual_start: 0, number_of_pages: pages, attribute: 0 }
}

#[test]
fn memory_descriptor_bounds() {
    let d = desc(EFI_CONVENTIONAL_MEMORY, 0x1000, 2);
    assert_eq!(memory_descriptor_end(&d), 0x3000);
    assert!(memory_descriptor_contains(&d, 0x1000));
    assert!(memory_descriptor_contains(&d, 0x2fff));
    assert!(!memory_descriptor_contains(&d, 0x3000));
    assert!(!memory_descriptor_contains(&d, 0xfff));
}

#[test]
fn target_memory_map_probe_finds_holders_and_best_region() {
    let map = [
        desc(2, 0x0, 0x10),
        desc(EFI_CONVENTIONAL_MEMORY, 0x10000, 0x100),
        desc(EFI_CONVENTIONAL_MEMORY, 0x200000, 0x400),
        desc(EFI_CONVENTIONAL_MEMORY, 0x800000, 0x400),
    ];
    let p = target_memory_map_probe(&map, 0x1ff000, 0x2000);
    assert_eq!(p.start_desc, None);
    assert_eq!(p.last_desc, Some(2));
    assert_eq!(p.best_start, 0x200000);
    assert_eq!(p.best_pages, 0x400);
    let q = target_memory_map_probe(&map, 0x10000, 0x1000);
    assert_eq!(q.start_desc, Some(1));
    assert_eq!(q.last_desc, Some(1));
}

#[test]
fn target_memory_map_probe_without_conventional_memory() {
    let map = [desc(4, 0x0, 0x10)];
    let p = target_memory_map_probe(&map, 0x100000, 1);
    assert_eq!(p.start_desc, None);
    assert_eq!(p.last_desc, None);
    assert_eq!(p.best_start, 0);
    assert_eq!(p.best_pages, 0);
}

#[test]
fn check_manifest_response_cases() {
    assert_eq!(check_manifest_response(EfiStatus(EFI_SUCCESS), HTTP_STATUS_200_OK, 100), Ok(()));
    assert_eq!(
        check_manifest_response(EfiStatus(EFI_NOT_READY), HTTP_STATUS_200_OK, 100),
        Err(EfiStatus(EFI_NOT_READY))
    );
    assert_eq!(check_manifest_response(EfiStatus(EFI_SUCCESS), 5, 100), Err(EfiStatus(EFI_DEVICE_ERROR)));
    assert_eq!(
        check_manifest_response(EfiStatus(EFI_SUCCESS), HTTP_STATUS_200_OK, MANIFEST_MAX + 1),
        Err(EfiStatus(EFI_DEVICE_ERROR))
    );
    assert_eq!(check_manifest_response(EfiStatus(EFI_SUCCESS), HTTP_STATUS_200_OK, MANIFEST_MAX), Ok(()));
}

#[test]
fn child_tls_label_appends_and_cuts() {
    assert_eq!(child_tls_label(b"manifest_443"), b"manifest_443_http_child_tls_config".to_vec());
    let long = vec![b'l'; 90];
    let label = child_tls_label(&long);
    assert_eq!(label.len(), 96);
    assert_eq!(&label[90..], b"_http_");
}

#[test]
fn manifest_assembly_gathers_the_body() {
    let mut a = ManifestAssembly::new();
    assert_eq!(a.on_decrypted(EfiStatus(EFI_SUCCESS), b"HTTP/1.1 200 OK\r\n"), Ok(None));
    assert_eq!(a.on_decrypted(EfiStatus(EFI_SUCCESS), b"\r\n"), Ok(None));
    assert_eq!(a.on_decrypted(EfiStatus(EFI_SUCCESS), b"{\"a\":1}"), Ok(Some(b"{\"a\":1}".to_vec())));
    assert_eq!(a.on_decrypted(EfiStatus(EFI_SUCCESS), b"\n"), Ok(Some(b"{\"a\":1}\n".to_vec())));
}

#[test]
fn manifest_assembly_errors() {
    let mut a = ManifestAssembly::new();
    assert_eq!(a.on_decrypted(EfiStatus(EFI_DEVICE_ERROR), b"x"), Err(EfiStatus(EFI_DEVICE_ERROR)));
    let mut b = ManifestAssembly::new();
    let chunk = vec![b'h'; 2000];
    for _ in 0..5 {
        assert_eq!(b.on_decrypted(EfiStatus(EFI_SUCCESS), &chunk), Ok(None));
    }
    assert_eq!(b.on_decrypted(EfiStatus(EFI_SUCCESS), &chunk), Err(EfiStatus(EFI_BUFFER_TOO_SMALL)));
}

#[test]
fn manifest_assembly_gives_up_after_four_rounds() {
    let mut a = ManifestAssembly::new();
    assert_eq!(a.next_round(), Ok(()));
    assert_eq!(a.next_round(), Ok(()));
    assert_eq!(a.next_round(), Ok(()));
    assert_eq!(a.next_round(), Err(EfiStatus(EFI_NOT_READY)));
}

#[test]
fn print_memory_descriptor_reports_a_descriptor() {
    let mut out = Vec::new();
    print_memory_descriptor(&mut out, "d", Some(&desc(7, 0x20_0000, 2)));
    let expected: &[u8] = b"d_found: yes\r\nd_type: 7\r\nd_physical_start: 0x0000000000200000\r\nd_pages: 2\r\n\
d_physical_end: 0x0000000000202000\r\n";
    assert_eq!(out, expected.to_vec());
    let mut none = Vec::new();
    print_memory_descriptor(&mut none, "d", None);
    assert_eq!(none, b"d_found: no\r\n".to_vec());
}

#[test]
fn print_target_memory_report_lists_the_probe() {
    let map = [desc(EFI_CONVENTIONAL_MEMORY, 0x1000, 1)];
    let mut out = Vec::new();
    let p = print_target_memory_report(&mut out, &map, 0x1000, 0x10);
    assert_eq!(p.start_desc, Some(0));
    let text = String::from_utf8(out).unwrap();
    let expected = "target_memory_range_start: 0x0000000000001000\r\n\
target_memory_range_end: 0x0000000000001010\r\n\
target_start_desc_found: yes\r\ntarget_start_desc_type: 7\r\n\
target_start_desc_physical_start: 0x0000000000001000\r\ntarget_start_desc_pages: 1\r\n\
target_start_desc_physical_end: 0x0000000000002000\r\n\
target_last_desc_found: yes\r\ntarget_last_desc_type: 7\r\n\
target_last_desc_physical_start: 0x0000000000001000\r\ntarget_last_desc_pages: 1\r\n\
target_last_desc_physical_end: 0x0000000000002000\r\n\
memory_map_best_conventional_start: 0x0000000000001000\r\n\
memory_map_best_conventional_pages: 1\r\n\
memory_map_best_conventional_end: 0x0000000000002000\r\n";
    assert_eq!(text, expected);
}

#[test]
fn memory_map_usable_cases() {
    assert_eq!(memory_map_usable(EfiStatus(EFI_SUCCESS), 48, 16), Step::Proceed);
    assert_eq!(memory_map_usable(EfiStatus(EFI_SUCCESS), 0, 16), Step::Stop(EfiStatus(EFI_SUCCESS)));
    assert_eq!(memory_map_usable(EfiStatus(EFI_SUCCESS), 48, 0), Step::Stop(EfiStatus(EFI_SUCCESS)));
    assert_eq!(memory_map_usable(EfiStatus(EFI_BUFFER_TOO_SMALL), 48, 16), Step::Stop(EfiStatus(EFI_BUFFER_TOO_SMALL)));
}

#[test]
fn manifest_assembly_keeps_its_response_on_errors() {
    let mut a = ManifestAssembly::new();
    assert_eq!(a.on_decrypted(EfiStatus(EFI_SUCCESS), b"HTTP/1.1 200 OK\r\n"), Ok(None));
    assert_eq!(a.on_decrypted(EfiStatus(EFI_DEVICE_ERROR), b"\r\nlost"), Err(EfiStatus(EFI_DEVICE_ERROR)));
    assert_eq!(a.on_decrypted(EfiStatus(EFI_SUCCESS), b"\r\nbody"), Ok(Some(b"body".to_vec())));
    let mut b = ManifestAssembly::new();
    let chunk = vec![b'h'; 1024];
    for _ in 0..5 {
        assert_eq!(b.on_decrypted(EfiStatus(EFI_SUCCESS), &chunk), Ok(None));
    }
    assert_eq!(b.on_decrypted(EfiStatus(EFI_SUCCESS), b"x"), Err(EfiStatus(EFI_BUFFER_TOO_SMALL)));
    assert_eq!(b.on_decrypted(EfiStatus(EFI_SUCCESS), b""), Ok(None));
}
