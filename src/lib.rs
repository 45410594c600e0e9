//! The discrete core of a small path tracer: the order in which pixels are
//! emitted, the decisions that bound and end a light path, and the PPM byte
//! encoding of the finished image. The floating-point geometry and shading
//! live beside this library in the application.

pub mod path;
pub mod ppm;
pub mod scan;
