//! Annotation parsing and descriptor construction for types that derive a
//! configuration load/save capability.

pub mod annotation;
pub mod conf;
pub mod descriptor;
pub mod error;
pub mod resolve;
