//! A fixed-point core for a freehand sketching canvas: stroke capture with a
//! minimum sample spacing, a pan and zoom camera, and the store of finished
//! polylines.
//!
//! The core holds no floating-point number. Positions and lengths are
//! integers that count 256ths of a unit; scales, spacings and scroll
//! magnitudes count 65536ths. A frame therefore gives the same result on
//! every machine, and every function states exactly what it computes:
//!
//! - a product with a scale is rounded toward zero, which keeps left and
//!   right, up and down symmetric;
//! - a coordinate that would leave the range of `i32` stops at its end;
//! - the camera keeps the logarithm of its scale, to which a zoom adds its
//!   whole distance, and takes the scale from it as a power of two, rounded
//!   down; the scale stays between 1/256 and 256.
//!
//! [`canvas::Canvas::update`] advances the whole canvas by one frame. The
//! steps it takes are functions of their own: [`stroke::draw_line`],
//! [`canvas::clear_canvas`], [`camera::move_camera`],
//! [`camera::zoom_camera`], [`stroke::stroke_to_line`] and
//! [`stroke::remove_line`]. [`zoom::scale_at`] gives the scale of a zoom
//! level.

pub mod camera;
pub mod camera_laws;
pub mod canvas;
pub mod fixed;
pub mod geometry;
pub mod input;
pub mod stroke;
pub mod zoom;
