//! The state of the terminal frontend, apart from drawing and input
//! devices.

pub mod app;
pub mod event;
