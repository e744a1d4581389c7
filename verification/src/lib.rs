//! Verified core of a MISO locational-marginal-price viewer: interval
//! arithmetic, the live snapshot window, the settled archive, feed reduction,
//! forecast planning and the chart's time-axis and label logic.
//!
//! Prices travel through this crate as an opaque `Copy` type parameter `P`:
//! everything here only moves them, orders records by their timestamps, and
//! selects them by hub name; the arithmetic on prices lives with the caller.

pub mod types;
pub mod text;
pub mod live;
pub mod history;
pub mod feed;
pub mod model;
pub mod chart;
