//! What a request asks for, and how a looked-up redirect is answered.
use vstd::prelude::*;
use crate::config::Config;

verus! {

pub const NO_REDIRECT: &'static str = "No redirect was found";

pub const URL_MISSING: &'static str = "The URL for this redirect does not exist";

pub const URL_INVALID: &'static str = "The URL for this redirect is invalid";

/// Where a request goes, by its key parameter.
pub enum Route {
    /// No key, or an empty one: send the visitor to the default target.
    DefaultRedirect,
    /// The admin key: serve the admin pages.
    Admin,
    /// Any other key: look up its redirect.
    Redirect(String),
}

/// The route of a request whose key parameter is `key`.
pub fn route(config: &Config, key: Option<String>) -> (r: Route)
    ensures
        match key {
            None => r is DefaultRedirect,
            Some(k) => if k@.len() == 0 {
                r is DefaultRedirect
            } else if k@ == config.admin_key() {
                r is Admin
            } else {
                r is Redirect && r->Redirect_0 == k
            },
        },
{
    match key {
        None => Route::DefaultRedirect,
        Some(k) => {
            if k.as_str().is_empty() {
                Route::DefaultRedirect
            } else if k == *config.get_admin_key() {
                Route::Admin
            } else {
                Route::Redirect(k)
            }
        },
    }
}

/// What the store held for a key.
pub enum Lookup {
    /// The lookup itself failed, with this message.
    Failed(String),
    /// There is no item under the key.
    NoItem,
    /// The item has no URL attribute.
    NoUrl,
    /// The URL attribute is not text.
    NotText,
    /// The URL.
    Url(String),
}

/// The answer to a redirect request.
pub enum RedirectOutcome {
    /// Send the visitor to `url`, and count a hit.
    Redirect { url: String },
    /// Show an error page with this status and message.
    Error { status: u16, message: String },
}

/// How a lookup is answered: a URL redirects, everything else is an error
/// page (404 for a missing item, 500 otherwise).
pub fn redirect_outcome(lookup: Lookup) -> (r: RedirectOutcome)
    ensures
        match lookup {
            Lookup::Failed(m) => r == (RedirectOutcome::Error { status: 500, message: m }),
            Lookup::NoItem => r is Error && r->status == 404 && r->message@ == NO_REDIRECT@,
            Lookup::NoUrl => r is Error && r->status == 500 && r->message@ == URL_MISSING@,
            Lookup::NotText => r is Error && r->status == 500 && r->message@ == URL_INVALID@,
            Lookup::Url(u) => r == (RedirectOutcome::Redirect { url: u }),
        },
{
    match lookup {
        Lookup::Failed(m) => RedirectOutcome::Error { status: 500, message: m },
        Lookup::NoItem => RedirectOutcome::Error { status: 404, message: NO_REDIRECT.to_owned() },
        Lookup::NoUrl => RedirectOutcome::Error { status: 500, message: URL_MISSING.to_owned() },
        Lookup::NotText => RedirectOutcome::Error { status: 500, message: URL_INVALID.to_owned() },
        Lookup::Url(u) => RedirectOutcome::Redirect { url: u },
    }
}

} // verus!
