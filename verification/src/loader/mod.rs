//! Readers for the file formats a scene is assembled from.

pub mod bmp;
pub mod obj;
