//! The built-in classes: their members, and the constructors of their objects.

pub mod any;
pub mod bool;
pub mod function;
pub mod integer;
pub mod native_function;
pub mod null;
pub mod string;
pub mod vec;
