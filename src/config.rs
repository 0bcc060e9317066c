//! The service's settings.
use vstd::prelude::*;

verus! {

/// Names and secrets that the service is configured with.
pub struct Config {
    table_name: String,
    key_param: String,
    default_redirect: String,
    admin_key: String,
    admin_secret: String,
}

impl Config {
    /// A configuration from its five settings.
    pub fn new(
        table_name: String,
        key_param: String,
        default_redirect: String,
        admin_key: String,
        admin_secret: String,
    ) -> (r: Config)
        ensures
            r.table_name() == table_name@,
            r.key_param() == key_param@,
            r.default_redirect() == default_redirect@,
            r.admin_key() == admin_key@,
            r.admin_secret() == admin_secret@,
    {
        Config { table_name, key_param, default_redirect, admin_key, admin_secret }
    }

    pub closed spec fn table_name(&self) -> Seq<char> {
        self.table_name@
    }

    pub closed spec fn key_param(&self) -> Seq<char> {
        self.key_param@
    }

    pub closed spec fn default_redirect(&self) -> Seq<char> {
        self.default_redirect@
    }

    pub closed spec fn admin_key(&self) -> Seq<char> {
        self.admin_key@
    }

    pub closed spec fn admin_secret(&self) -> Seq<char> {
        self.admin_secret@
    }

    /// The store table that holds the redirects.
    pub fn get_table_name(&self) -> (r: &String)
        ensures
            r@ == self.table_name(),
    {
        &self.table_name
    }

    /// The path parameter that carries the redirect key.
    pub fn get_key_param(&self) -> (r: &String)
        ensures
            r@ == self.key_param(),
    {
        &self.key_param
    }

    /// Where a request without a key is sent.
    pub fn get_default_redirect(&self) -> (r: &String)
        ensures
            r@ == self.default_redirect(),
    {
        &self.default_redirect
    }

    /// The key under which the admin pages are served.
    pub fn get_admin_key(&self) -> (r: &String)
        ensures
            r@ == self.admin_key(),
    {
        &self.admin_key
    }

    /// The secret that admits to the admin pages.
    pub fn get_admin_secret(&self) -> (r: &String)
        ensures
            r@ == self.admin_secret(),
    {
        &self.admin_secret
    }
}

} // verus!
