//! Rendering core for a small memory-mapped display.
//!
//! The crate owns a fixed-size RGBA8888 frame buffer mapped from a display
//! device, and offers bounds-checked pixel writes, alpha compositing, a
//! glyph cache, and text layout on top of it.  Protocol-line parsing and
//! input-event classification for the surrounding radio UI live here too.

pub mod device;
pub mod font;
pub mod framebuffer;
pub mod input;
pub mod m17;
pub mod pixel;
pub mod surface;

pub use device::CapabilityMismatch;
pub use device::DeviceInfo;
pub use device::FramebufferError;
pub use device::BYTES_PER_PIXEL;
pub use device::DISPLAY_HEIGHT;
pub use device::DISPLAY_WIDTH;
pub use device::FRAMEBUFFER_SIZE;
pub use device::FRAMEBUFFER_STRIDE;
pub use framebuffer::Framebuffer;
pub use font::FontId;
pub use font::FontRegistry;
pub use font::Glyph;
pub use font::GlyphCache;
pub use input::event_for_byte;
pub use input::event_for_key_code;
pub use input::event_for_poll;
pub use input::InputEvent;
pub use input::InputHandler;
pub use input::PollOutcome;
pub use input::KEY_CODE_DOWN;
pub use input::KEY_CODE_ENTER;
pub use input::KEY_CODE_ESC;
pub use input::KEY_CODE_UP;
pub use m17::extract_field;
pub use m17::parse_m17_line;
pub use pixel::Color;
pub use pixel::Point;
pub use surface::PixelBuffer;
