//! A minimal tensor library: array shapes are modelled as a chain of
//! dimension nodes, and element buffers are allocated and addressed
//! according to such a shape.

pub mod collective;
pub mod dimensions;
pub mod header;
pub mod num;

pub use dimensions::Dimensions;
