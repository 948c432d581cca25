//! Window settings: frame-rate policy, window mode and colors, with the
//! values the window system is configured with.
use vstd::prelude::*;

verus! {

/// How the frame rate is paced.
#[derive(Clone, Copy, Debug, PartialEq, Eq, Structural)]
pub enum FPSConfig {
    /// Wait for the display's vertical sync.
    VSync,
    Unlimited,
    /// At most this many frames per second.
    Limited(u32),
}

impl FPSConfig {
    /// Whether vertical sync is switched on under this policy.
    pub fn vertical_sync(&self) -> (b: bool)
        ensures
            b == (*self is VSync),
    {
        match self {
            FPSConfig::VSync => true,
            _ => false,
        }
    }

    /// The frame-rate cap to configure, 0 meaning no cap.
    pub fn framerate_limit(&self) -> (r: u32)
        ensures
            r == match *self {
                FPSConfig::Limited(limit) => limit,
                _ => 0,
            },
    {
        match self {
            FPSConfig::Limited(limit) => *limit,
            _ => 0,
        }
    }
}

/// Whether the window covers the screen or has a size of its own.
#[derive(Clone, Copy, Debug, PartialEq, Eq, Structural)]
pub enum WindowMode {
    Fullscreen,
    Windowed { width: u32, height: u32 },
}

impl From<(u32, u32)> for WindowMode {
    /// A window of the given width and height.
    fn from(size: (u32, u32)) -> (m: WindowMode)
        ensures
            m == (WindowMode::Windowed { width: size.0, height: size.1 }),
    {
        WindowMode::Windowed { width: size.0, height: size.1 }
    }
}

impl vstd::std_specs::convert::FromSpecImpl<(u32, u32)> for WindowMode {
    open spec fn obeys_from_spec() -> bool {
        true
    }

    open spec fn from_spec(size: (u32, u32)) -> WindowMode {
        WindowMode::Windowed { width: size.0, height: size.1 }
    }
}

/// A color as red, green, blue and alpha components.
#[derive(Clone, Copy, Debug, PartialEq, Eq, Structural)]
pub struct Color(pub u8, pub u8, pub u8, pub u8);

impl Color {
    /// An opaque color.
    pub fn rgb(r: u8, g: u8, b: u8) -> (c: Color)
        ensures
            c == Color(r, g, b, 255),
    {
        Color(r, g, b, 255)
    }

    pub fn rgba(r: u8, g: u8, b: u8, a: u8) -> (c: Color)
        ensures
            c == Color(r, g, b, a),
    {
        Color(r, g, b, a)
    }
}

} // verus!
