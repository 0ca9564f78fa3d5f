//! The decisions of a wgpu rendering backend: what is uploaded, how it is laid out, what is copied
//! and drawn, and in which order. Nothing here touches the graphics card: each function takes plain
//! values, and says in plain values what is to be created or recorded.
//!
//! - [`vertex_depth`] wraps vertex shaders so that they write depth as wgpu expects it, with the help
//!   of [`text`].
//! - [`geometry_buffer`] plans vertex and index buffers: [`vertex_format`] and [`vertex_layout`] say
//!   how vertices are read, [`vertex_conversion`] rewrites integers that shaders must see as floats.
//! - [`read_buffer`] reads pixels back from padded rows.
//! - [`raytracing`] and [`shadow_tracer`] trace shadow rays where the hardware supports it.
//! - [`depth_copy`] copies depth by drawing.
//! - [`float_bits`] and [`bytes`] hold single-precision numbers and words as they are stored.
//! - [`server`] and [`texture`] hold what the others have to know of the server and of textures.
pub mod bytes;
pub mod depth_copy;
pub mod float_bits;
pub mod geometry_buffer;
pub mod raytracing;
pub mod read_buffer;
pub mod server;
pub mod shadow_tracer;
pub mod text;
pub mod texture;
pub mod vertex_conversion;
pub mod vertex_depth;
pub mod vertex_format;
pub mod vertex_layout;
