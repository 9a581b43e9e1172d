//! An animated color-wheel renderer's logic: exact HSL to packed-RGB
//! conversion, pixel geometry around a center, and the frame fill of the
//! two render modes (a static gradient and a rotating ring).
pub mod color;
pub mod render;

pub use color::{hsl_to_rgb, Fraction};
pub use render::{distance_squared_from_center, next_time, render_gradient, render_ring, ring_pixel};
