//! A list of named items that can be ticked off.
//!
//! The list is a `Vec` of [`item::Item`]. The operations of [`store`] take the
//! current list and return the next one: adding an item, unless its name is
//! taken but for the case of its letters, clicking an item, deleting one, and
//! clearing the checked ones. After each of them the list is sorted, unchecked items
//! first and by name within the same tick. [`session`] puts the list together
//! with the entry field and says after each intent of the user whether the list
//! is to be stored. [`laws`] holds what is proved of the operations on every
//! list.

pub mod bag;
pub mod item;
pub mod laws;
pub mod session;
pub mod sort;
pub mod store;
pub mod text;
