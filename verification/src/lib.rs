//! Windows and monitors: what is captured of them, and how they are found and arranged.

pub mod arrangement;
pub mod error;
pub mod macos;
pub mod monitor;
pub mod outline;
pub mod pixels;
pub mod preheat;
pub mod rooted;
pub mod text;
pub mod text_laws;
pub mod tree_laws;
pub mod window;
pub mod windows;

pub use error::{XCapError, XCapResult};
pub use monitor::{Monitor, VideoRecorder};
pub use preheat::preheat_capture_backend;
pub use window::{Window, WindowInfo, WindowQueryOptions, WindowSizeFilter};
