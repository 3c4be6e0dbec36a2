//! Tiled text watermarks: layout of the repeated text, compositing of the
//! rotated overlay onto an image, and the choice of output codec and name.
pub mod color;
pub mod composite;
pub mod layout;
pub mod output;
pub mod plan;
pub mod text;
