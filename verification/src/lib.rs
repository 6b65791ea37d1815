//! Verified decision logic of the Arlen compositor.

pub mod golden;
pub mod grid;
pub mod grid_manager;
pub mod number;
pub mod pointer_driver;
pub mod presented;
pub mod probes;
pub mod sensing;
pub mod session_lock;
pub mod text;
pub mod theme;
