//! A doubly linked list whose nodes live in an arena of slots addressed by
//! index, with verified append, lookup, removal and rendering.
use vstd::prelude::*;

pub mod laws;
pub mod list;
pub mod render;

verus! {

pub use crate::list::{DoublyLinkedList, ListError};

} // verus!
