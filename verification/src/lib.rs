//! A log viewer core: line classification, colouring, a cumulative-height
//! index for viewport culling, and drag selection.

pub mod color;
pub mod devices;
pub mod highlighter;
pub mod log;
pub mod logcat_worker;
pub mod selection;
pub mod stream;
pub mod text;
pub mod window;
