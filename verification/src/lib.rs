//! A sandboxed view of one directory tree, and the ranking of the
//! projections that can render a path inside it.

pub mod api;
pub mod order;
pub mod paths;
pub mod projection;
pub mod projections;
pub mod registry;
pub mod text;
pub mod workspace;
