//! Racing-simulator telemetry: decoding of UDP datagrams, a sliding buffer of
//! samples, detection of locking brakes, and what the overlay shows of them.
//!
//! Nothing here draws, receives or reads files. Numbers are single-precision
//! numbers given by their bit patterns, and what is shown is a list of shapes.
pub mod arithmetic;
pub mod binary32;
pub mod buffer;
pub mod buffer_laws;
pub mod direction;
pub mod double;
pub mod exactness;
pub mod f1;
pub mod length;
pub mod model;
pub mod numeral;
pub mod plugins;
pub mod renderer;
pub mod rounding_laws;
pub mod text;
pub mod text_laws;
pub mod time;
pub mod time_laws;
