//! A catalog of physical items organized by category and annotated with tags.
//!
//! The crate models the relational entity store (categories, tags, items,
//! item objects, and the item-tag association) and the faceted search that
//! assembles each matching item into a fully hydrated aggregate.

use vstd::prelude::*;

pub mod data;
pub mod hydration;
pub mod laws;
pub mod search;
pub mod state;
pub mod store;
pub mod util;

verus! {

} // verus!
