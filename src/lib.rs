//! An animated ASCII-art background engine and the small data models of a
//! personal blog.
//!
//! The engine partitions an ASCII-art picture into a grid of text blocks,
//! gives each block an entry direction that avoids flying through blocks
//! that are already in place, staggers the blocks in layers around the grid
//! centre, and drives a timeline of per-block visual states.
pub mod random;
pub mod path;
pub mod text;
pub mod grid;
pub mod schedule;
pub mod timeline;
pub mod animation;
pub mod tag;
pub mod url;
pub mod link;
pub mod post;
pub mod theme;
