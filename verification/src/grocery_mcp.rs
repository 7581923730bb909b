//! The decisions behind the tools that cover K-Ruoka, S-Kaupat and Alko together.
//!
//! K-Ruoka has account, cart and offer support; S-Kaupat and Alko are deliberately read-only
//! catalogue providers.

use vstd::prelude::*;
use vstd::string::*;

use crate::browser::session::ApiError;
use crate::providers::alko::AlkoError;
use crate::providers::s_kaupat::SKaupatError;
use crate::text;

verus! {

pub const DEFAULT_DEBUG_PORT: u16 = 9222;

pub const NO_STORE: &'static str =
    "No K-Ruoka store_id provided and no default store has been set. Call set_default_store first, or pass store_id explicitly.";

pub const SESSION_EXPIRED: &'static str =
    "The K-Plussa session has expired. Run `k-ruoka-mcp login` on the machine hosting this server, then retry.";

pub const SIGN_IN_EXPIRED: &'static str =
    "The K-Plussa session has expired. Start login again.";

pub const NOT_SIGNED_IN: &'static str =
    "Not signed in. The reachable cart is anonymous, not the account's. Start login or run `k-ruoka-mcp login`.";

/// The text that a caller gets where a tool fails.
#[derive(Debug)]
pub struct GroceryToolFailure(pub String);

/// The text that tells a caller of a K-Ruoka error.
pub open spec fn k_failure_text(error: ApiError) -> Seq<char> {
    match error {
        ApiError::AuthExpired => SESSION_EXPIRED@,
        ApiError::InvalidRequest(text) => text@,
        ApiError::Other(text) => text@,
    }
}

/// The failure that tells a caller of a K-Ruoka error.
pub fn k_tool_failure(error: ApiError) -> (failure: GroceryToolFailure)
    ensures
        failure.0@ == k_failure_text(error),
{
    GroceryToolFailure(
        match error {
            ApiError::AuthExpired => SESSION_EXPIRED.to_owned(),
            ApiError::InvalidRequest(text) => text,
            ApiError::Other(text) => text,
        },
    )
}

/// The failure that tells a caller of an Alko error.
pub fn alko_failure(error: AlkoError) -> (failure: GroceryToolFailure)
    ensures
        failure.0@ == error.describes(),
{
    GroceryToolFailure(error.message())
}

/// The failure that tells a caller of an S-Kaupat error.
pub fn s_kaupat_failure(error: SKaupatError) -> (failure: GroceryToolFailure)
    ensures
        failure.0@ == error.describes(),
{
    GroceryToolFailure(error.message())
}

/// The store id in a saved text: without white space around it, unless nothing is left of it.
/// Nothing where no text could be read.
pub fn read_default_store(saved: Option<&str>) -> (store: Option<String>)
    ensures
        text::optional_view(store) == text::filled(text::slice_view(saved)),
{
    text::owned_text(text::filled_text(saved))
}

/// The default store at start: the one that was saved, or else the one that is configured.
pub open spec fn initial_store(saved: Option<Seq<char>>, configured: Option<Seq<char>>) -> Option<
    Seq<char>,
> {
    match text::filled(saved) {
        Some(id) => Some(id),
        None => text::filled(configured),
    }
}

/// The store that a tool uses: the one that the caller names, or else the default store.
pub open spec fn resolved_store(provided: Option<Seq<char>>, default_store: Option<Seq<char>>) -> Option<
    Seq<char>,
> {
    match provided {
        Some(id) => Some(id),
        None => default_store,
    }
}

/// What a caller is told after the default store was set.
#[derive(Debug)]
pub struct DefaultStoreStatus {
    pub default_store: String,
}

/// The K-Ruoka store that the tools use where a caller names none.
pub struct DefaultStore {
    store: Option<String>,
}

impl DefaultStore {
    /// The store id.
    pub closed spec fn id(self) -> Option<Seq<char>> {
        text::optional_view(self.store)
    }

    /// The default store at start: the one that was saved, or else the one that is configured.
    pub fn initial(saved: Option<&str>, configured: Option<&str>) -> (default_store: DefaultStore)
        ensures
            default_store.id() == initial_store(
                text::slice_view(saved),
                text::slice_view(configured),
            ),
    {
        match read_default_store(saved) {
            Some(id) => DefaultStore { store: Some(id) },
            None => DefaultStore { store: read_default_store(configured) },
        }
    }

    /// Sets the default store.
    pub fn set_default_store(&mut self, store_id: String) -> (status: DefaultStoreStatus)
        ensures
            final(self).id() == Some(store_id@),
            status.default_store@ == store_id@,
    {
        self.store = Some(store_id.clone());
        DefaultStoreStatus { default_store: store_id }
    }

    /// The store that a tool uses: the one that the caller names, or else the default store.
    pub fn resolve_store(&self, provided: Option<String>) -> (store: Result<
        String,
        GroceryToolFailure,
    >)
        ensures
            match resolved_store(text::optional_view(provided), self.id()) {
                Some(id) => store matches Ok(store) && store@ == id,
                None => store matches Err(failure) && failure.0@ == NO_STORE@,
            },
    {
        match provided {
            Some(id) => Ok(id),
            None => match &self.store {
                Some(id) => Ok(id.clone()),
                None => Err(GroceryToolFailure(NO_STORE.to_owned())),
            },
        }
    }

    /// The store that a sign-in is checked at: the one that the caller names, or else the default
    /// store, or else `fallback`.
    pub fn probe_store(&self, provided: Option<String>, fallback: &str) -> (store: String)
        ensures
            store@ == match resolved_store(text::optional_view(provided), self.id()) {
                Some(id) => id,
                None => fallback@,
            },
    {
        match provided {
            Some(id) => id,
            None => match &self.store {
                Some(id) => id.clone(),
                None => fallback.to_owned(),
            },
        }
    }
}

/// A store that was set is used where a caller names none, and a store that a caller names is
/// used whatever is set. A store that was set and saved is the default store after a restart,
/// whatever is configured, but for white space around its id.
pub proof fn law_default_store_is_remembered(
    id: Seq<char>,
    named: Seq<char>,
    default_store: Option<Seq<char>>,
    configured: Option<Seq<char>>,
)
    ensures
        resolved_store(None, Some(id)) == Some(id),
        resolved_store(Some(named), default_store) == Some(named),
        text::trimmed(id).len() > 0 ==> initial_store(Some(id), configured) == Some(
            text::trimmed(id),
        ),
        text::trimmed(id).len() == 0 ==> initial_store(Some(id), configured) == initial_store(
            None,
            configured,
        ),
{
}

/// Without a saved store the configured one is the default store at start, without the white space
/// around its id; where that is blank too, or nothing is configured, there is none. Without a
/// store that the caller names and a default store, no store is used.
pub proof fn law_configured_store_comes_second(
    before: Seq<char>,
    id: Seq<char>,
    after: Seq<char>,
    saved: Seq<char>,
)
    requires
        text::all_white(before),
        text::bare(id),
        text::all_white(after),
        text::all_white(saved),
    ensures
        id.len() > 0 ==> {
            &&& initial_store(None, Some(before + id + after)) == Some(id)
            &&& initial_store(Some(saved), Some(before + id + after)) == Some(id)
            &&& initial_store(Some(before + id + after), Some(saved)) == Some(id)
            &&& initial_store(Some(before + id + after), None) == Some(id)
        },
        initial_store(None, Some(saved)) is None,
        initial_store(Some(saved), None) is None,
        initial_store(None, None) is None,
        resolved_store(None, None) is None,
{
    text::law_filled_texts_hold_something(before, id, after);
    text::law_filled_texts_hold_something(saved, Seq::empty(), Seq::empty());
    assert(saved + Seq::<char>::empty() + Seq::<char>::empty() == saved);
}

/// A caller is told the text of a K-Ruoka error as it is, but for an expired session, where the
/// caller is told to log in again.
pub proof fn law_k_errors_are_told_as_they_are(text: String)
    ensures
        k_failure_text(ApiError::InvalidRequest(text)) == text@,
        k_failure_text(ApiError::Other(text)) == text@,
        k_failure_text(ApiError::AuthExpired)
            == "The K-Plussa session has expired. Run `k-ruoka-mcp login` on the machine hosting this server, then retry."@,
{
}

/// Whether the stored browser session is signed in.
#[derive(Debug)]
pub struct AuthStatus {
    pub logged_in: bool,
    pub account: Option<String>,
    pub detail: String,
}

/// What is made of the account that the active cart shows, or of the error that kept the cart
/// from being read.
pub fn auth_status(account: Result<Option<String>, ApiError>) -> (status: Result<
    AuthStatus,
    GroceryToolFailure,
>)
    ensures
        match account {
            Ok(Some(who)) => {
                &&& status matches Ok(status)
                &&& status.logged_in
                &&& text::optional_view(status.account) == Some(who@)
                &&& status.detail@ == "Signed in as "@ + who@ + "."@
            },
            Ok(None) => {
                &&& status matches Ok(status)
                &&& !status.logged_in
                &&& status.account is None
                &&& status.detail@ == NOT_SIGNED_IN@
            },
            Err(ApiError::AuthExpired) => {
                &&& status matches Ok(status)
                &&& !status.logged_in
                &&& status.account is None
                &&& status.detail@ == SIGN_IN_EXPIRED@
            },
            Err(error) => status matches Err(failure) && failure.0@ == k_failure_text(error),
        },
        status matches Ok(status) ==> (status.logged_in <==> status.account is Some),
{
    match account {
        Ok(Some(who)) => {
            let detail: String = "Signed in as ".to_owned().concat(who.as_str()).concat(".");
            Ok(AuthStatus { logged_in: true, account: Some(who), detail })
        },
        Ok(None) => Ok(
            AuthStatus { logged_in: false, account: None, detail: NOT_SIGNED_IN.to_owned() },
        ),
        Err(ApiError::AuthExpired) => Ok(
            AuthStatus { logged_in: false, account: None, detail: SIGN_IN_EXPIRED.to_owned() },
        ),
        Err(error) => Err(k_tool_failure(error)),
    }
}

/// How a product is put into the cart. `Q` is the type of quantities.
pub struct CartAddition<Q> {
    pub quantity: Q,
    pub unit: String,
    pub allow_substitutes: bool,
}

/// How a product is put into the cart: as the caller says, or else once, in the default unit, and
/// so that substitutes may come in its place.
pub fn cart_addition<Q>(
    quantity: Option<Q>,
    unit: Option<String>,
    allow_substitutes: Option<bool>,
    once: Q,
    default_unit: &str,
) -> (addition: CartAddition<Q>)
    ensures
        addition.quantity == match quantity {
            Some(quantity) => quantity,
            None => once,
        },
        addition.unit@ == match unit {
            Some(unit) => unit@,
            None => default_unit@,
        },
        addition.allow_substitutes == match allow_substitutes {
            Some(allow) => allow,
            None => true,
        },
{
    CartAddition {
        quantity: match quantity {
            Some(quantity) => quantity,
            None => once,
        },
        unit: match unit {
            Some(unit) => unit,
            None => default_unit.to_owned(),
        },
        allow_substitutes: match allow_substitutes {
            Some(allow) => allow,
            None => true,
        },
    }
}

/// The port that a login listens on.
pub fn debug_port(port: Option<u16>) -> (chosen: u16)
    ensures
        chosen == match port {
            Some(port) => port,
            None => DEFAULT_DEBUG_PORT,
        },
{
    match port {
        Some(port) => port,
        None => DEFAULT_DEBUG_PORT,
    }
}

}
