//! A type-erased growable array: one contiguous byte buffer that holds
//! elements of a single type chosen at creation, checked on every typed call.
//!
//! The list remembers the size and the tag of its element type; every call
//! that takes or returns an element names the type and fails with
//! `AnyListError::TypeMismatch` when it is not the one the list was made for.
//! Capacity grows additively, through 1, 2, 3, 5, 8, 13, ..., and never
//! shrinks.
pub mod any_list;
pub mod element;
pub mod laws;
mod layout;

pub use any_list::{AnyList, AnyListError};
pub use element::Element;
