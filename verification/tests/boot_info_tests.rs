use ostool_boot::boot_info::{
    kernel_boot_info, GraphicsInfo, GraphicsMode, KERNEL_BOOT_INFO_VERSION, PIXEL_FORMAT_UNKNOWN,
};
use ostool_boot::status::{EfiStatus, EFI_NOT_FOUND, EFI_SUCCESS};

const MAGIC: u64 = 0x1234_5678_9abc_def0;

fn mode(info: Option<GraphicsInfo>) -> GraphicsMode {
    GraphicsMode { frame_buffer_base: 0x8000_0000, frame_buffer_size: 0x30_0000, info }
}

#[test]
fn boot_info_takes_the_framebuffer_and_geometry() {
    let info = GraphicsInfo { horizontal_resolution: 1024, vertical_resolution: 768, pixels_per_scan_line: 1024, pixel_format: 1 };
    let b = kernel_boot_info(MAGIC, EfiStatus(EFI_SUCCESS), Some(mode(Some(info))));
    assert_eq!(b.magic, MAGIC);
    assert_eq!(b.version, KERNEL_BOOT_INFO_VERSION);
    assert_eq!(b.framebuffer_base, 0x8000_0000);
    assert_eq!(b.framebuffer_size, 0x30_0000);
    assert_eq!((b.horizontal_resolution, b.vertical_resolution, b.pixels_per_scan_line, b.pixel_format), (1024, 768, 1024, 1));
}

#[test]
fn boot_info_without_mode_information_keeps_the_framebuffer_only() {
    let b = kernel_boot_info(MAGIC, EfiStatus(EFI_SUCCESS), Some(mode(None)));
    assert_eq!(b.framebuffer_base, 0x8000_0000);
    assert_eq!(b.horizontal_resolution, 0);
    assert_eq!(b.pixel_format, PIXEL_FORMAT_UNKNOWN);
}

#[test]
fn boot_info_without_graphics_output_is_blank() {
    let info = GraphicsInfo { horizontal_resolution: 1, vertical_resolution: 1, pixels_per_scan_line: 1, pixel_format: 1 };
    let b = kernel_boot_info(MAGIC, EfiStatus(EFI_NOT_FOUND), Some(mode(Some(info))));
    assert_eq!(b.framebuffer_base, 0);
    assert_eq!(b.framebuffer_size, 0);
    assert_eq!(b.pixel_format, PIXEL_FORMAT_UNKNOWN);
    let c = kernel_boot_info(MAGIC, EfiStatus(EFI_SUCCESS), None);
    assert_eq!(c.framebuffer_size, 0);
    assert_eq!(c.magic, MAGIC);
}
