//! What makes the first capture faster.

use vstd::prelude::*;

verus! {

/// What captures are made with.
#[derive(Debug, Clone, Copy, PartialEq, Eq, Structural)]
pub enum Backend {
    /// Windows; by way of graphics capture, or else by desktop duplication.
    Windows { graphics_capture: bool },
    /// macOS.
    MacOs,
    /// Anything else.
    Other,
}

/// What is to be done ahead of the first capture.
#[derive(Debug, Clone, Copy, PartialEq, Eq, Structural)]
pub enum Preheat {
    /// Nothing.
    Nothing,
    /// Set up the graphics device; nothing is captured.
    GraphicsDevice,
    /// Capture the main display once, in the background, and throw the image away.
    ThrowawayCapture,
}

/// What is to be done ahead of the first capture: desktop duplication wants its device, and macOS
/// its pipeline of screenshots.
pub fn preheat_capture_backend(backend: Backend) -> (preheat: Preheat)
    ensures
        preheat == (match backend {
            Backend::Windows { graphics_capture } => if graphics_capture {
                Preheat::Nothing
            } else {
                Preheat::GraphicsDevice
            },
            Backend::MacOs => Preheat::ThrowawayCapture,
            Backend::Other => Preheat::Nothing,
        }),
{
    match backend {
        Backend::Windows { graphics_capture } => {
            if graphics_capture {
                Preheat::Nothing
            } else {
                Preheat::GraphicsDevice
            }
        },
        Backend::MacOs => Preheat::ThrowawayCapture,
        Backend::Other => Preheat::Nothing,
    }
}

} // verus!
