//! A revision-tracked memoization engine. A database holds inputs, interned
//! values, tracked structs and memoized functions; each read made while a
//! function runs is recorded, and in a later revision a cached result is
//! reused, revalidated through its recorded reads, or recomputed.
pub mod revision;
pub mod key;
pub mod cycle;
pub mod runtime;
pub mod input;
pub mod interned;
pub mod function;
pub mod tracked_struct;
pub mod database;
pub mod ingredient;
