//! Software rendering: colours and buffers, painting primitives, and the image
//! codec screenshots and icons go through.

pub mod bits;
pub mod buffer;
pub mod checksum;
pub mod column_laws;
pub mod deflate;
pub mod desktop_font;
pub mod draw;
pub mod image;
pub mod inflate;
pub mod inflate_laws;
pub mod lettering;
pub mod overlay_laws;
pub mod paint;
pub mod paint_laws;
pub mod repaint_laws;
pub mod png;
pub mod png_laws;
pub mod primitives;
pub mod screenshot;
pub mod shapes;
pub mod text;
