//! Read-only tools for S-Kaupat catalogue and store discovery.

use vstd::prelude::*;

use crate::browser::catalog;
use crate::json;
use crate::providers::s_kaupat;
use crate::providers::s_kaupat::{SKaupatError, StoreSearch};
use crate::text;

verus! {

/// The arguments of a product search.
#[derive(Debug)]
pub struct SearchSKaupatProductsArg {
    /// Free-text product search, preferably in Finnish.
    pub query: String,
    /// S-Kaupat store id. Product prices and assortment are store-specific.
    pub store_id: String,
    /// How many results to return. Defaults to 10, capped at 50.
    pub limit: Option<u32>,
}

/// The arguments of a store search.
#[derive(Debug)]
pub struct SearchSKaupatStoresArg {
    /// Optional place or store-name query.
    pub query: Option<String>,
}

/// The text that a caller gets where a tool fails.
#[derive(Debug)]
pub struct ToolFailure(pub String);

/// The failure that tells a caller of an error.
pub fn tool_failure(error: SKaupatError) -> (failure: ToolFailure)
    ensures
        failure.0@ == error.describes(),
{
    ToolFailure(error.message())
}

impl SearchSKaupatProductsArg {
    /// The variables of the search.
    pub fn variables(&self) -> (variables: Result<serde_json::Value, ToolFailure>)
        ensures
            match variables {
                Ok(variables) => {
                    &&& text::trimmed(self.query@).len() > 0
                    &&& text::trimmed(self.store_id@).len() > 0
                    &&& json::json_tree(variables) == s_kaupat::product_search_json(
                        text::trimmed(self.query@),
                        text::trimmed(self.store_id@),
                        catalog::clamped(self.limit),
                    )
                },
                Err(failure) => if text::trimmed(self.query@).len() == 0 {
                    failure.0@ == SKaupatError::EmptyQuery.describes()
                } else {
                    &&& text::trimmed(self.store_id@).len() == 0
                    &&& failure.0@ == SKaupatError::EmptyStoreId.describes()
                },
            },
    {
        match s_kaupat::product_search_variables(
            self.query.as_str(),
            self.store_id.as_str(),
            self.limit,
        ) {
            Ok(variables) => Ok(variables),
            Err(error) => Err(tool_failure(error)),
        }
    }
}

impl SearchSKaupatStoresArg {
    /// The beginning of the search.
    pub fn search(&self) -> (search: StoreSearch)
        ensures
            search@ == s_kaupat::search_start(text::filled(text::optional_view(self.query))),
    {
        StoreSearch::new(text::borrow_text(&self.query))
    }
}

}
