//! Integer and symbolic core of a polynomial force-field fit: the exponent
//! basis, the monomial derivatives behind the gradient and Hessian, the
//! force-constant index patterns, the classification of stationary points,
//! the decisions of the Newton search and the line grammar of the input.
pub mod basis;
pub mod classify;
pub mod deriv;
pub mod extract;
pub mod newton;
pub mod render;
pub mod scan;
pub mod text;

pub use basis::{Basis, BasisError};
pub use classify::{characterize, Sign, StatKind};
pub use deriv::{gradient_term, hessian_term, monomial, Term};
pub use extract::{force_constant_pattern, force_constant_patterns, ExtractError, FcPattern};
pub use render::{count_line, exponent_row};
pub use newton::{NewtonAction, NewtonControl, NewtonError, NewtonEvent, MAX_ITERATIONS};
pub use scan::{read_header, LineKind, LoadError, Scanner, Section};
pub use text::{read_count, read_i32, read_i32_fields, read_usize, split_fields};
