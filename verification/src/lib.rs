//! Query a container build file as structured data.
//!
//! A small path-expression language addresses ARG defaults, FROM parents,
//! RUN commands, and stage metadata of an already-parsed build file, with
//! scoped variable interpolation and cycle detection.

pub mod error;
pub mod eval;
pub mod exit_code;
pub mod laws;
pub mod model;
pub mod parser;
pub mod query;
pub mod text;
pub mod value;

pub use crate::error::{Error, Span};
pub use crate::eval::{EvalMeta, EvalResult, Evaluator, Overrides, Scope};
pub use crate::exit_code::ExitCode;
pub use crate::model::{ArgDefaults, DockerfileModel, Instruction, Parent, Stage};
pub use crate::parser::parse_dockerfile;
pub use crate::query::{parse_query, Arg, Index, Query, Segment};
pub use crate::value::Value;
