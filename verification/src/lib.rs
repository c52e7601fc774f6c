//! Numeric and interaction engine of an escape-time fractal viewer.
//!
//! Every quantity that the viewer treats as a real number is held as a
//! [`fixed::Fixed`]: a signed count of billionths. All arithmetic is exact
//! integer arithmetic with a stated rounding, so each function is a
//! mathematical function of its arguments.

pub mod fixed;
pub mod error;
pub mod viewport;
pub mod navigation;
pub mod escape;
pub mod palette;
pub mod coloring;
pub mod frame;
