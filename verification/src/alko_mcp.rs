//! Read-only tools for Alko catalogue and store discovery.
//!
//! There is no account state and no purchasing capability: Alko access here is guest-session
//! catalogue lookup only.

use vstd::prelude::*;

use crate::browser::catalog;
use crate::json;
use crate::providers::alko;
use crate::providers::alko::{AlkoError, AlkoStore, AlkoStoreView};
use crate::text;

verus! {

/// The arguments of a product search.
#[derive(Debug)]
pub struct SearchAlkoProductsArg {
    /// Free-text product search, e.g. "riesling" or "lonkero".
    pub query: String,
    /// Optional Alko store id. Without it the national catalogue is searched.
    pub store_id: Option<String>,
    /// How many results to return. Defaults to 10, capped at 50.
    pub limit: Option<u32>,
}

/// The arguments of a store listing.
#[derive(Debug)]
pub struct SearchAlkoStoresArg {
    /// Optional city filter. Without it every store is listed.
    pub city: Option<String>,
}

/// The text that a caller gets where a tool fails.
#[derive(Debug)]
pub struct ToolFailure(pub String);

/// The failure that tells a caller of an error.
pub fn tool_failure(error: AlkoError) -> (failure: ToolFailure)
    ensures
        failure.0@ == error.describes(),
{
    ToolFailure(error.message())
}

impl SearchAlkoProductsArg {
    /// The body of the search.
    pub fn body(&self) -> (body: Result<serde_json::Value, ToolFailure>)
        ensures
            match body {
                Ok(body) => {
                    &&& text::trimmed(self.query@).len() > 0
                    &&& json::json_tree(body) == alko::product_search_json(
                        text::trimmed(self.query@),
                        alko::scoping_store(text::optional_view(self.store_id)),
                        catalog::clamped(self.limit),
                    )
                },
                Err(failure) => {
                    &&& text::trimmed(self.query@).len() == 0
                    &&& failure.0@ == AlkoError::EmptyQuery.describes()
                },
            },
    {
        match alko::product_search_body(self.query.as_str(), text::borrow_text(&self.store_id), self.limit) {
            Ok(body) => Ok(body),
            Err(error) => Err(tool_failure(error)),
        }
    }
}

impl SearchAlkoStoresArg {
    /// The stores that are listed.
    pub fn listed(&self, stores: Vec<AlkoStore>) -> (view: Vec<AlkoStoreView>)
        ensures
            view@ == alko::stores_in(stores@, text::filled(text::optional_view(self.city))),
    {
        alko::stores_view(stores, text::borrow_text(&self.city))
    }
}

}
