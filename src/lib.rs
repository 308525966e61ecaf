//! A small entropy source that draws bits from the jitter of a high-resolution
//! clock and assembles them into fixed-width integers and booleans.
pub mod model;
pub mod bits;
pub mod clock;
pub mod entropy;
pub mod laws;

pub use clock::{Clock, SystemClock};
pub use entropy::QRNG;
