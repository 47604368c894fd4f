//! What the language offers beside its classes.

pub mod prelude;
