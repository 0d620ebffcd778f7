//! Sequential colour scales in exact arithmetic.
//!
//! A palette of reference colours is read from a packed hexadecimal string,
//! and a scalar is mapped onto it through a uniform cubic B-spline, channel by
//! channel. Nothing here is rounded on the way: scalars are integers of a
//! fixed-point grid, a position along the scale is a `Fraction`, a colour in
//! working space is a `NormalizedColor` whose channels share one denominator,
//! and the byte that leaves the scale is the true value times 255, cut off
//! towards zero.
//!
//! - `palette` reads specifiers and says what a palette is.
//! - `spline` holds the spline over one channel and the interpolation of a
//!   palette.
//! - `scale` maps a scalar of a domain to a position and on to a colour.
//! - `spectral` is the spectral scheme with its ready-made scales.
//! - `spline_laws`, `continuity` and `laws` state what holds of all of them.

pub mod error;
pub mod fraction;
pub mod color;
pub mod palette;
pub mod spline;
pub mod scale;
pub mod spectral;
pub mod spline_laws;
pub mod continuity;
pub mod laws;

pub use crate::color::{quantize_channel, NormalizedColor, QuantizedColor};
pub use crate::error::{DomainError, InvalidPaletteError};
pub use crate::fraction::{Fraction, Ratio};
pub use crate::palette::{get_colors, MIN_STOPS, STOP_DEN};
pub use crate::scale::{position, Colors};
pub use crate::spectral::{SpectralColors, SPECTRAL_COLORS_STRS, UNIT};
pub use crate::spline::{basis, rgb_spline, spline};
