//! Filters and buffers for digital signal processing: first-, second- and
//! third-order low-pass filters, biquad filters, median filters, a slew rate
//! limiter, a moving average filter, and circular and rolling buffers.
//!
//! The filters are generic over the arithmetic of their signal and gain
//! types, given by the traits in `numeric`.
mod biquad_filter;
mod circular_buffer;
mod filters;
mod median_filter;
mod moving_average_filter;
mod numeric;
mod pt_filters;
mod rolling_buffer;
mod slew_filter;

pub use biquad_filter::{BiquadFilter, BiquadFilterCoefficients, BiquadFilterState};
pub use circular_buffer::CircularBuffer;
pub use filters::{SignalFilter, UpdateFilter};
pub use median_filter::{Median3Filter, Median3FilterTF, MedianFilter};
pub use moving_average_filter::MovingAverageFilter;
pub use numeric::{
    Additive, ConstHalf, MathConstants, Mean, One, Ordered, Scalar, Scale, TrigonometricMethods, Zero,
};
pub use pt_filters::{Pt1Filter, Pt2Filter, Pt3Filter};
pub use rolling_buffer::RollingBuffer;
pub use slew_filter::{LimitSlew, SlewRateLimiter};
