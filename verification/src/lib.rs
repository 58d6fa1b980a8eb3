//! An append-only logging layer for optical-measurement sessions.

pub mod allocator;
pub mod columns;
pub mod database;
pub mod error;
pub mod intensities;
pub mod measurements;
pub mod schema;
pub mod stream;
pub mod tolerance;
pub mod wavelengths;
