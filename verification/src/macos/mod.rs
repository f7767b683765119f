//! What the macOS backend decides and computes.

pub mod accessibility;
pub mod ax_laws;
pub mod capture;
pub mod frame_laws;
pub mod match_laws;
pub mod reach_laws;
pub mod traversal;
pub mod traversal_laws;
pub mod warm_capturer;
