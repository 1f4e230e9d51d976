//! Composes a strip of captioned picture tiles into overlapping frames and
//! plans the encoder jobs that turn those frames into a sliding video.
pub mod bresenham;
pub mod canvas;
pub mod compose;
pub mod config;
pub mod dates;
pub mod decimal;
pub mod draw;
pub mod ellipse;
pub mod error;
pub mod maps;
pub mod partition;
pub mod pipeline;
pub mod point;
pub mod polygon;
pub mod raster;
pub mod rect;
pub mod rng;
pub mod slides;
pub mod sources;
pub mod text;
pub mod tile;
