//! The category index: for each category, the links that refer to it.
use vstd::prelude::*;
use crate::wikilink::WikiLink;

verus! {

/// A category and the links that refer to it, in order.
#[derive(Debug)]
pub struct Category {
    pub wikilink: WikiLink,
    pub refered: Vec<WikiLink>,
}

#[derive(Debug)]
pub struct CategoryReference {
    pub categories: Vec<Category>,
}

impl CategoryReference {
    /// An empty index.
    pub fn new() -> (r: Self)
        ensures
            r.categories@.len() == 0,
    {
        CategoryReference { categories: Vec::new() }
    }
}

} // verus!
