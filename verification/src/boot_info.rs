//! The information block the loader hands to the kernel at its entry
//! point: a header and what the firmware reports of the framebuffer.
use vstd::prelude::*;
use crate::status::EfiStatus;

verus! {

/// The version of the boot information block.
pub const KERNEL_BOOT_INFO_VERSION: u32 = 1;

/// The pixel format recorded when the firmware reports none.
pub const PIXEL_FORMAT_UNKNOWN: u32 = 0xffff_ffff;

/// The mode information of the graphics output.
#[derive(Clone, Copy, Debug, PartialEq, Eq, Structural)]
pub struct GraphicsInfo {
    pub horizontal_resolution: u32,
    pub vertical_resolution: u32,
    pub pixels_per_scan_line: u32,
    pub pixel_format: u32,
}

/// The current mode of the graphics output: its framebuffer, and its mode
/// information when the firmware gives one.
#[derive(Clone, Copy, Debug, PartialEq, Eq, Structural)]
pub struct GraphicsMode {
    pub frame_buffer_base: u64,
    pub frame_buffer_size: u64,
    pub info: Option<GraphicsInfo>,
}

/// The boot information block for the kernel.
#[derive(Clone, Copy, Debug, PartialEq, Eq, Structural)]
pub struct KernelBootInfo {
    pub magic: u64,
    pub version: u32,
    pub framebuffer_base: u64,
    pub framebuffer_size: u64,
    pub horizontal_resolution: u32,
    pub vertical_resolution: u32,
    pub pixels_per_scan_line: u32,
    pub pixel_format: u32,
}

/// What the block takes from the graphics output, field by field: with
/// the output located and a mode, the framebuffer of the mode, and with
/// mode information, each geometry field and the pixel format from the
/// field of the same name; what it lacks is zero, the pixel format unknown.
pub open spec fn boot_info_from_mode(b: KernelBootInfo, gop_status: EfiStatus, mode: Option<GraphicsMode>) -> bool {
    let located = !gop_status.spec_is_error() && mode is Some;
    &&& located ==> b.framebuffer_base == mode.unwrap().frame_buffer_base
    &&& located ==> b.framebuffer_size == mode.unwrap().frame_buffer_size
    &&& !located ==> b.framebuffer_base == 0 && b.framebuffer_size == 0
    &&& (located && mode.unwrap().info is Some) ==> {
        let i = mode.unwrap().info.unwrap();
        &&& b.horizontal_resolution == i.horizontal_resolution
        &&& b.vertical_resolution == i.vertical_resolution
        &&& b.pixels_per_scan_line == i.pixels_per_scan_line
        &&& b.pixel_format == i.pixel_format
    }
    &&& !(located && mode.unwrap().info is Some) ==> {
        &&& b.horizontal_resolution == 0
        &&& b.vertical_resolution == 0
        &&& b.pixels_per_scan_line == 0
        &&& b.pixel_format == PIXEL_FORMAT_UNKNOWN
    }
}

/// The block for `magic`, given the status of locating the graphics output
/// and its current mode (`None` when there is no output or no mode): the
/// framebuffer when the output was located and has a mode, its geometry
/// and pixel format when the mode has information; zeros and an unknown
/// pixel format otherwise.
pub open spec fn spec_kernel_boot_info(magic: u64, gop_status: EfiStatus, mode: Option<GraphicsMode>) -> KernelBootInfo {
    let blank = KernelBootInfo {
        magic,
        version: KERNEL_BOOT_INFO_VERSION,
        framebuffer_base: 0,
        framebuffer_size: 0,
        horizontal_resolution: 0,
        vertical_resolution: 0,
        pixels_per_scan_line: 0,
        pixel_format: PIXEL_FORMAT_UNKNOWN,
    };
    if gop_status.spec_is_error() {
        blank
    } else {
        match mode {
            None => blank,
            Some(m) => match m.info {
                None => KernelBootInfo {
                    framebuffer_base: m.frame_buffer_base,
                    framebuffer_size: m.frame_buffer_size,
                    ..blank
                },
                Some(i) => KernelBootInfo {
                    framebuffer_base: m.frame_buffer_base,
                    framebuffer_size: m.frame_buffer_size,
                    horizontal_resolution: i.horizontal_resolution,
                    vertical_resolution: i.vertical_resolution,
                    pixels_per_scan_line: i.pixels_per_scan_line,
                    pixel_format: i.pixel_format,
                    ..blank
                },
            },
        }
    }
}

/// Fills the boot information block (see `spec_kernel_boot_info`).
pub fn kernel_boot_info(magic: u64, gop_status: EfiStatus, mode: Option<GraphicsMode>) -> (r: KernelBootInfo)
    ensures
        r == spec_kernel_boot_info(magic, gop_status, mode),
        r.magic == magic && r.version == KERNEL_BOOT_INFO_VERSION,
        boot_info_from_mode(r, gop_status, mode),
{
    let mut info = KernelBootInfo {
        magic,
        version: KERNEL_BOOT_INFO_VERSION,
        framebuffer_base: 0,
        framebuffer_size: 0,
        horizontal_resolution: 0,
        vertical_resolution: 0,
        pixels_per_scan_line: 0,
        pixel_format: PIXEL_FORMAT_UNKNOWN,
    };
    if !gop_status.is_error() {
        if let Some(m) = mode {
            info.framebuffer_base = m.frame_buffer_base;
            info.framebuffer_size = m.frame_buffer_size;
            if let Some(i) = m.info {
                info.horizontal_resolution = i.horizontal_resolution;
                info.vertical_resolution = i.vertical_resolution;
                info.pixels_per_scan_line = i.pixels_per_scan_line;
                info.pixel_format = i.pixel_format;
            }
        }
    }
    info
}

/// The boot information block carries the given magic and the current
/// version, and copies each framebuffer and geometry field from the field of
/// the same name of the located graphics mode (see `boot_info_from_mode`).
pub proof fn law_boot_info_copies_the_mode(magic: u64, gop_status: EfiStatus, mode: Option<GraphicsMode>)
    ensures
        spec_kernel_boot_info(magic, gop_status, mode).magic == magic,
        spec_kernel_boot_info(magic, gop_status, mode).version == KERNEL_BOOT_INFO_VERSION,
        boot_info_from_mode(spec_kernel_boot_info(magic, gop_status, mode), gop_status, mode),
        !gop_status.spec_is_error() ==> (mode matches Some(m) ==> {
            let b = spec_kernel_boot_info(magic, gop_status, mode);
            &&& b.framebuffer_base == m.frame_buffer_base
            &&& b.framebuffer_size == m.frame_buffer_size
            &&& (m.info matches Some(i) ==> {
                &&& b.horizontal_resolution == i.horizontal_resolution
                &&& b.vertical_resolution == i.vertical_resolution
                &&& b.pixels_per_scan_line == i.pixels_per_scan_line
                &&& b.pixel_format == i.pixel_format
            })
        }),
{
}

} // verus!
