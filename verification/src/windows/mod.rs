//! What the Windows backend decides and computes.

pub mod accessibility;
pub mod app_name;
pub mod debug_lines;
pub mod dxgi_capture;
pub mod element_laws;
pub mod impl_window;
pub mod process;
pub mod query;
pub mod reach_laws;
pub mod record_laws;
pub mod record_walk;
pub mod uia_laws;
pub mod uia_probe;
pub mod validity;
pub mod wide;
pub mod window_laws;
