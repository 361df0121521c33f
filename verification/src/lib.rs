//! Sensor fusion and change detection for a platform that exposes many
//! independently addressed scalar sensors under four-byte identifiers.
//!
//! All quantities are fixed-point integers in thousandths of their unit:
//! temperatures in millidegrees Celsius, power in milliwatts. Sums are
//! taken in wider integers than their terms, so no input overflows.
//!
//! - [`key`]: sensor identifiers.
//! - [`zone`]: the zones and the prefix rules that assign a key to one.
//! - [`aggregate`]: range gates and the mean of a zone's readings.
//! - [`power`]: the power of a subsystem as the residual of a total.
//! - [`detector`]: exponential smoothing and change events.
//! - [`sampler`]: the loop of a fast and a slow channel.
//! - [`work`]: the ranking of the units of work that the slow channel lists.
//! - [`metrics`]: figures derived from the readings of one tick.
//! - [`text`]: whole numbers as the reports of other programs write them.
//! - [`probe`]: the rules of the tools that find the keys of a machine.

pub mod aggregate;
pub mod detector;
pub mod key;
pub mod metrics;
pub mod power;
pub mod probe;
pub mod sampler;
pub mod text;
pub mod work;
pub mod zone;
