//! Contact sheets: lays a set of images out on a grid and composites them
//! onto one white canvas.

pub mod compose;
pub mod decode;
pub mod error;
pub mod fetch;
pub mod grid;
pub mod raster;
pub mod source_list;
