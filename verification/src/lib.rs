//! Integer core of an n-th order differentiating filter builder: binomial
//! coefficients for the denominator of `(1 + T s)^n`, band-index layout for
//! the companion-form state matrices, and the model's shape arithmetic.

pub mod bands;
pub mod binom;
pub mod filter;

pub use bands::upper_diag_cells;
pub use binom::binom_u32;
pub use filter::diff_filter_denom_coeffs;
pub use filter::diff_filter_shape;
pub use filter::SsShape;
