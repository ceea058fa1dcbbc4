//! Hardware metrics sampling with running extrema, rendered as text panels.

pub mod cpu;
pub mod extrema;
pub mod gpu;
pub mod gpu_extrema;
pub mod gpu_source;
pub mod memory;
pub mod number;
pub mod panel;
pub mod sensors;
pub mod text;
