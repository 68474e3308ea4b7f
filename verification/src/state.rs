//! Client-side view state: the admin display toggle and the search query
//! carried in the address bar.

use vstd::prelude::*;

use crate::data::{DbError, Item};
use crate::search::{query_view, search_spec};
use crate::store::Repository;
use crate::util::names_view;

verus! {

/// The admin-mode display toggle. It is a pure client-side view switch
/// with no server-side enforcement — not a security boundary.
#[derive(Clone)]
pub struct AdminState {
    pub set: bool,
}

impl Default for AdminState {
    /// Admin mode starts switched off.
    fn default() -> (r: AdminState)
        ensures
            r.set == false,
    {
        AdminState { set: false }
    }
}

/// A search request as the address bar carries it: optional free text,
/// optional category, and the tag names to exclude.
#[derive(Clone)]
pub struct SearchQuery {
    pub q: Option<String>,
    pub category: Option<String>,
    pub filter_tags: Vec<String>,
}

/// View of an optional owned string.
pub open spec fn opt_string_view(q: Option<String>) -> Option<Seq<char>> {
    match q {
        None => None,
        Some(s) => Some(s@),
    }
}

impl SearchQuery {
    /// Runs this query against the store. Without a chosen category the
    /// query names no result set and nothing is searched; with one, the
    /// result is exactly what `search_items` specifies.
    pub fn run(&self, repo: &Repository) -> (r: Option<Result<Vec<Item>, DbError>>)
        requires
            repo@.inv(),
        ensures
            match r {
                None => self.category is None,
                Some(res) => self.category matches Some(c) && (res matches Ok(v)
                    && v@.map_values(|it: Item| it@) == search_spec(
                    repo@,
                    opt_string_view(self.q),
                    names_view(self.filter_tags@),
                    c@,
                )),
            },
    {
        match &self.category {
            None => None,
            Some(c) => {
                let q = match &self.q {
                    None => None,
                    Some(s) => Some(s.as_str()),
                };
                proof {
                    assert(query_view(q) == opt_string_view(self.q));
                }
                Some(repo.search_items(q, self.filter_tags.as_slice(), c.as_str()))
            },
        }
    }
}

} // verus!
