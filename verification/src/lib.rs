//! Bookkeeping for a 4d ray-traced game renderer: the dense id/slot storage
//! behind GPU object buffers, the batching of 2d overlay draws, the parser of
//! bitmap-font descriptions, input tracking and the frame-loop decisions.
//!
//! Everything that talks to the GPU, the window system or floating point
//! lives outside this crate; the functions here return plans (offsets, sizes,
//! ranges) that the caller carries out.

pub mod app;
pub mod camera;
pub mod storage;
pub mod texture;
pub mod ui;
pub mod font;
pub mod game;
pub mod ray_tracing;

pub use storage::{BufferMove, Id, Reallocation, Storage};
