//! Messages of the Qubes GUI protocol, as plain values.
use vstd::prelude::*;

verus! {

/// A rectangle on the daemon's screen: top-left corner and size.
#[derive(Clone, Copy, Debug, PartialEq, Eq, Structural)]
pub struct Rectangle {
    pub x: u32,
    pub y: u32,
    pub width: u32,
    pub height: u32,
}

/// The body of a `Configure` message, in either direction.
#[derive(Clone, Copy, Debug, PartialEq, Eq, Structural)]
pub struct Configure {
    pub rectangle: Rectangle,
    pub override_redirect: u32,
}

/// Length of the zero-padded title carried by `SetTitle`.
pub const TITLE_LEN: usize = 128;

/// A message from the agent to the daemon, with the window it is about.
#[derive(Clone, Debug, PartialEq, Eq)]
pub enum Outbound {
    Create { window: u32, rectangle: Rectangle, parent: Option<u32>, override_redirect: u32 },
    Configure { window: u32, configure: Configure },
    MapInfo { window: u32, override_redirect: u32, transient_for: u32 },
    /// The shared framebuffer's header, to be sent raw.
    WindowDump { window: u32 },
    ShmImage { window: u32, rectangle: Rectangle },
    /// A title, always `TITLE_LEN` bytes, zero-padded.
    SetTitle { window: u32, title: Vec<u8> },
    Destroy { window: u32 },
    WindowFlags { window: u32, set: u32, unset: u32 },
}

} // verus!
