//! Device geometry: the fixed design profile, probed capabilities, and the
//! error taxonomy of the rendering engine.

use vstd::prelude::*;

use crate::font::FontId;

verus! {

/// Design width of the display, in pixels.
pub const DISPLAY_WIDTH: u16 = 160;

/// Design height of the display, in pixels.
pub const DISPLAY_HEIGHT: u16 = 128;

/// Bytes per RGBA8888 pixel.
pub const BYTES_PER_PIXEL: usize = 4;

/// Fallback row pitch, in pixels (tightly packed).
pub const FRAMEBUFFER_STRIDE: u16 = 160;

/// Fallback total mapping length in bytes: stride x height x 4.
pub const FRAMEBUFFER_SIZE: usize = 160 * 128 * 4;

/// The way a probed device geometry differs from the fixed design target.
#[derive(Debug, Clone, Copy, PartialEq, Eq, Structural)]
pub enum CapabilityMismatch {
    Width { expected: u16, actual: u16 },
    Height { expected: u16, actual: u16 },
    BitsPerPixel { expected: u32, actual: u32 },
}

/// Everything a rendering call can fail with.  No operation panics and no
/// operation writes outside the mapped region; bad input is reported here.
#[derive(Debug)]
pub enum FramebufferError {
    /// Opening the device failed; the message comes from the caller that did
    /// the I/O.
    IoError(String),
    /// A coordinate outside the device bounds was passed to a pixel write.
    InvalidCoordinate { x: u16, y: u16 },
    /// A font resource could not be read or parsed.
    FontLoadError(String),
    /// Text was requested for a font slot that has no loaded font.
    FontNotLoaded(FontId),
    /// Mapping the device memory failed.
    DeviceError(String),
    /// The probed geometry differs from the fixed design target.
    InvalidDeviceCapabilities(CapabilityMismatch),
    /// A computed row or buffer span exceeds the mapped length.  Spans are
    /// reported in bytes, widened so that no span computation can overflow.
    BufferSizeMismatch { expected: u64, actual: u64 },
    /// A glyph required by a text call has not been placed in the cache.
    GlyphNotCached(char),
}

/// Geometry reported by the device (or the fallback profile), fixed at
/// construction.
#[derive(Debug, Clone)]
pub struct DeviceInfo {
    pub width: u16,
    pub height: u16,
    pub bits_per_pixel: u32,
    pub line_length: u32,
    pub buffer_size: usize,
}

/// The error `validate` reports for a geometry that misses the design
/// target: the first mismatch in the order width, height, depth, span.
pub open spec fn capability_error(info: DeviceInfo) -> FramebufferError {
    if info.width != DISPLAY_WIDTH {
        FramebufferError::InvalidDeviceCapabilities(
            CapabilityMismatch::Width { expected: DISPLAY_WIDTH, actual: info.width },
        )
    } else if info.height != DISPLAY_HEIGHT {
        FramebufferError::InvalidDeviceCapabilities(
            CapabilityMismatch::Height { expected: DISPLAY_HEIGHT, actual: info.height },
        )
    } else if info.bits_per_pixel != 32 {
        FramebufferError::InvalidDeviceCapabilities(
            CapabilityMismatch::BitsPerPixel { expected: 32, actual: info.bits_per_pixel },
        )
    } else {
        FramebufferError::BufferSizeMismatch {
            expected: ((info.line_length as int) * (info.height as int)) as u64,
            actual: info.buffer_size as u64,
        }
    }
}

impl DeviceInfo {
    /// The geometry is the fixed design target and the mapping covers every
    /// row.
    pub open spec fn valid(self) -> bool {
        &&& self.width == DISPLAY_WIDTH
        &&& self.height == DISPLAY_HEIGHT
        &&& self.bits_per_pixel == 32
        &&& self.buffer_size >= (self.line_length as int) * (self.height as int)
    }

    /// Rejects any geometry that differs from the fixed design target, before
    /// the geometry is ever used for a mapping.  Checks run in the order
    /// width, height, depth, buffer span, and the first mismatch is reported.
    pub fn validate(&self) -> (r: Result<(), FramebufferError>)
        ensures
            r == if self.valid() {
                Result::<(), FramebufferError>::Ok(())
            } else {
                Result::<(), FramebufferError>::Err(capability_error(*self))
            },
    {
        if self.width != DISPLAY_WIDTH {
            return Err(
                FramebufferError::InvalidDeviceCapabilities(
                    CapabilityMismatch::Width { expected: DISPLAY_WIDTH, actual: self.width },
                ),
            );
        }
        if self.height != DISPLAY_HEIGHT {
            return Err(
                FramebufferError::InvalidDeviceCapabilities(
                    CapabilityMismatch::Height { expected: DISPLAY_HEIGHT, actual: self.height },
                ),
            );
        }
        if self.bits_per_pixel != 32 {
            return Err(
                FramebufferError::InvalidDeviceCapabilities(
                    CapabilityMismatch::BitsPerPixel { expected: 32, actual: self.bits_per_pixel },
                ),
            );
        }
        let expected_size: u64 = (self.line_length as u64) * (self.height as u64);
        if (self.buffer_size as u64) < expected_size {
            return Err(
                FramebufferError::BufferSizeMismatch {
                    expected: expected_size,
                    actual: self.buffer_size as u64,
                },
            );
        }
        Ok(())
    }

    /// The built-in profile used when the hardware geometry queries fail:
    /// the design resolution with a tightly packed stride.
    pub fn fallback() -> (info: DeviceInfo)
        ensures
            info == (DeviceInfo {
                width: DISPLAY_WIDTH,
                height: DISPLAY_HEIGHT,
                bits_per_pixel: 32u32,
                line_length: 640u32,
                buffer_size: FRAMEBUFFER_SIZE,
            }),
            info.valid(),
    {
        DeviceInfo {
            width: DISPLAY_WIDTH,
            height: DISPLAY_HEIGHT,
            bits_per_pixel: 32,
            line_length: 640,
            buffer_size: FRAMEBUFFER_SIZE,
        }
    }
}

} // verus!
