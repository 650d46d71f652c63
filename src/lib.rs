//! Renders a graph of animated 2D nodes into frames, composites them with a
//! fixed alpha blend and orders finished frames for a streaming encoder.
pub mod color;
pub mod frame;
pub mod geometry;
pub mod raster;
pub mod behaviour;
pub mod errors;
pub mod scene;
pub mod pipeline;
pub mod encoding;
pub mod rendered_image;
pub mod finite_state_machine;
pub mod frame_dictionary;
