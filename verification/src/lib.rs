//! Annotation-driven generation of text-rendering code.
//!
//! A type's shape (its fields, or its variants and their fields) and the
//! annotations attached to it are resolved into a fragment: a pattern that
//! takes the value apart and an expression that renders it.

pub mod attrs;
pub mod derive;
pub mod error;
pub mod fragment;
pub mod impl_struct;
pub mod join;
pub mod laws;
pub mod shape;
pub mod text;
