//! A singly linked list built from nested, exclusively owned nodes, with a
//! read-only and a mutable forward cursor over its values and a bracketed
//! textual rendering.
//!
//! A list is modelled by the sequence of its values, outermost first; every
//! contract in this crate is stated over that sequence.
//!
//! - [`list`]: the list and its model.
//! - [`cursor`]: the cursors, `iter` and `iter_mut`.
//! - [`render`]: the rendering and what holds of it.
//! - [`edit`]: an edit made through the mutable cursor.

pub mod cursor;
pub mod edit;
pub mod list;
pub mod render;

pub use cursor::{Iter, MutIter};
pub use list::Test;
