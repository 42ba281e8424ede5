//! Typed, bounds-checked views over WebAssembly linear memory.
//!
//! A linear memory is a resizable run of bytes. A [`TypedMemoryView`] projects
//! it onto a sequence of fixed-width little-endian elements and offers
//! index and slice access from a fixed element offset. A view holds no
//! reference to the memory: every operation is handed the bytes it looks
//! through, so any number of views may share one memory and each sees its
//! current extent.
//!
//! The crate also converts between the WebAssembly text and binary formats.

pub mod element;
pub mod encoding;
pub mod laws;
pub mod memory;
pub mod selector;
pub mod text;
pub mod view;

pub use element::ElementType;
pub use selector::{Selector, Value, ValueView, ViewError};
pub use text::{wasm2wat, wat2wasm, ConversionError};
pub use view::TypedMemoryView;
