//! The decisions of the admin pages: who is let in, what a request does, and
//! which stored redirects are listed.
use vstd::prelude::*;
use crate::config::Config;

verus! {

/// The cookie that carries the admin secret.
pub const COOKIE_NAME: &'static str = "admin_secret";

/// A request posted to the admin pages.
pub enum AdminRequest {
    Login { secret: String },
    Upsert { key: String, url: String },
    Delete { key: String },
}

/// Whether the visitor may see the admin pages.
#[derive(Clone, Copy, PartialEq, Eq, Structural, Debug)]
pub enum AuthOutcome {
    /// The secret matches.
    Authorized,
    /// Show the login page; `invalid_secret` when a secret was given and is
    /// wrong.
    LoginPage { invalid_secret: bool },
}

/// What the admin pages do with a request.
#[derive(Clone, Copy, PartialEq, Eq, Structural, Debug)]
pub enum AdminAction {
    /// Show the login page.
    LoginPage { invalid_secret: bool },
    /// Store the posted redirect, then show the list.
    Upsert,
    /// Remove the posted key, then show the list.
    Delete,
    /// Show the list; `set_cookie` after a successful login.
    List { set_cookie: bool },
}

/// The cookies of a `Cookie` header, in order: each one's name and value, or
/// nothing where it does not parse.
pub uninterp spec fn parsed_cookies(header: Seq<char>) -> Seq<Option<(Seq<char>, Seq<char>)>>;

pub open spec fn cookies_view(v: Seq<Option<(String, String)>>) -> Seq<Option<(Seq<char>, Seq<char>)>> {
    Seq::new(
        v.len(),
        |i: int|
            match v[i] {
                Some(c) => Some((c.0@, c.1@)),
                None => None,
            },
    )
}

/// Relies on cookie::Cookie::split_parse_encoded: splits a `Cookie` header at
/// `;` and parses (and percent-decodes) each cookie; the result depends on the
/// header alone, and an empty header holds no cookie.
#[verifier::external_body]
fn split_cookies(header: &str) -> (r: Vec<Option<(String, String)>>)
    ensures
        cookies_view(r@) == parsed_cookies(header@),
        header@.len() == 0 ==> r@.len() == 0,
{
    cookie::Cookie::split_parse_encoded(header)
        .map(|c| c.ok().map(|c| (c.name().to_owned(), c.value().to_owned())))
        .collect()
}

/// The value of the first well-formed cookie called `name`.
pub open spec fn first_cookie(cookies: Seq<Option<(Seq<char>, Seq<char>)>>, name: Seq<char>) -> Option<Seq<char>>
    decreases cookies.len(),
{
    if cookies.len() == 0 {
        None
    } else {
        match cookies[0] {
            Some(c) if c.0 == name => Some(c.1),
            _ => first_cookie(cookies.drop_first(), name),
        }
    }
}

/// Whether a given secret admits.
pub open spec fn auth_of(secret: Option<Seq<char>>, admin_secret: Seq<char>) -> AuthOutcome {
    if secret == Some(admin_secret) {
        AuthOutcome::Authorized
    } else {
        AuthOutcome::LoginPage { invalid_secret: secret is Some }
    }
}

/// The secret that the cookies carry, if any.
pub fn cookie_secret(cookies: &Vec<Option<(String, String)>>) -> (r: Option<String>)
    ensures
        r matches Some(s) ==> first_cookie(cookies_view(cookies@), COOKIE_NAME@) == Some(s@),
        r is None ==> first_cookie(cookies_view(cookies@), COOKIE_NAME@) is None,
{
    let name = COOKIE_NAME.to_owned();
    let n = cookies.len();
    let mut i: usize = 0;
    assert(cookies_view(cookies@).subrange(0, n as int) =~= cookies_view(cookies@));
    while i < n
        invariant
            n == cookies@.len(),
            0 <= i <= n,
            name@ == COOKIE_NAME@,
            first_cookie(cookies_view(cookies@), COOKIE_NAME@)
                == first_cookie(cookies_view(cookies@).subrange(i as int, n as int), COOKIE_NAME@),
        decreases n - i,
    {
        let ghost rest = cookies_view(cookies@).subrange(i as int, n as int);
        assert(rest.drop_first() =~= cookies_view(cookies@).subrange(i + 1, n as int));
        match &cookies[i] {
            Some(c) => {
                if c.0 == name {
                    return Some(c.1.clone());
                }
            },
            None => {},
        }
        i = i + 1;
    }
    None
}

/// Whether the visitor's cookies admit them.
pub fn check_cookies(config: &Config, cookies: &Vec<Option<(String, String)>>) -> (r: AuthOutcome)
    ensures
        r == auth_of(first_cookie(cookies_view(cookies@), COOKIE_NAME@), config.admin_secret()),
{
    match cookie_secret(cookies) {
        Some(s) => {
            if s == *config.get_admin_secret() {
                AuthOutcome::Authorized
            } else {
                AuthOutcome::LoginPage { invalid_secret: true }
            }
        },
        None => AuthOutcome::LoginPage { invalid_secret: false },
    }
}

/// Whether the visitor's `Cookie` header admits them; no header admits no
/// one.
pub fn authenticate(config: &Config, header: Option<String>) -> (r: AuthOutcome)
    ensures
        r == auth_of(
            match header {
                Some(h) => first_cookie(parsed_cookies(h@), COOKIE_NAME@),
                None => None,
            },
            config.admin_secret(),
        ),
{
    match header {
        Some(h) => {
            let cookies = split_cookies(h.as_str());
            check_cookies(config, &cookies)
        },
        None => AuthOutcome::LoginPage { invalid_secret: false },
    }
}

/// What an admin request does, given whether the visitor's cookies admit
/// them. A login is judged by its own secret; any other request needs the
/// cookie.
pub fn admin_action(config: &Config, request: &Option<AdminRequest>, auth: AuthOutcome) -> (r: AdminAction)
    ensures
        match request {
            Some(AdminRequest::Login { secret }) => if secret@ == config.admin_secret() {
                r == AdminAction::List { set_cookie: true }
            } else {
                r == AdminAction::LoginPage { invalid_secret: true }
            },
            _ => match auth {
                AuthOutcome::LoginPage { invalid_secret } => r == AdminAction::LoginPage { invalid_secret },
                AuthOutcome::Authorized => match request {
                    Some(AdminRequest::Upsert { .. }) => r == AdminAction::Upsert,
                    Some(AdminRequest::Delete { .. }) => r == AdminAction::Delete,
                    _ => r == AdminAction::List { set_cookie: false },
                },
            },
        },
{
    match request {
        Some(AdminRequest::Login { secret }) => {
            if *secret == *config.get_admin_secret() {
                AdminAction::List { set_cookie: true }
            } else {
                AdminAction::LoginPage { invalid_secret: true }
            }
        },
        _ => match auth {
            AuthOutcome::LoginPage { invalid_secret } => AdminAction::LoginPage { invalid_secret },
            AuthOutcome::Authorized => match request {
                Some(AdminRequest::Upsert { .. }) => AdminAction::Upsert,
                Some(AdminRequest::Delete { .. }) => AdminAction::Delete,
                _ => AdminAction::List { set_cookie: false },
            },
        },
    }
}

/// The percent-encoding of a string.
pub uninterp spec fn url_encoded(s: Seq<char>) -> Seq<char>;

/// Relies on urlencoding::encode: percent-encodes every UTF-8 byte but
/// alphanumerics and `-`, `_`, `.`, `~`; the result depends on the input
/// alone.
#[verifier::external_body]
fn percent_encode(s: &str) -> (r: String)
    ensures
        r@ == url_encoded(s@),
{
    urlencoding::encode(s).into_owned()
}

/// A redirect as the store holds it.
pub struct StoredRedirect {
    pub key: String,
    pub url: String,
}

/// What an upsert stores: the key percent-encoded, the URL as posted.
pub fn upsert_item(key: &String, url: String) -> (r: StoredRedirect)
    ensures
        r.key@ == url_encoded(key@),
        r.url == url,
{
    StoredRedirect { key: percent_encode(key.as_str()), url }
}

pub open spec fn pairs_view(v: Seq<(String, String)>) -> Seq<(Seq<char>, Seq<char>)> {
    Seq::new(v.len(), |i: int| (v[i].0@, v[i].1@))
}

/// The stored (key, URL) pairs that the list shows: those with both parts
/// non-empty, in the order given.
pub open spec fn listed(items: Seq<(Seq<char>, Seq<char>)>) -> Seq<(Seq<char>, Seq<char>)>
    decreases items.len(),
{
    if items.len() == 0 {
        Seq::empty()
    } else {
        let shown = listed(items.drop_last());
        let it = items.last();
        if it.0.len() > 0 && it.1.len() > 0 {
            shown.push(it)
        } else {
            shown
        }
    }
}

/// The rows of the admin list.
pub fn listed_rows(items: &Vec<(String, String)>) -> (r: Vec<(String, String)>)
    ensures
        pairs_view(r@) == listed(pairs_view(items@)),
{
    let mut r: Vec<(String, String)> = Vec::new();
    let n = items.len();
    let mut i: usize = 0;
    assert(pairs_view(items@).take(0) =~= Seq::<(Seq<char>, Seq<char>)>::empty());
    while i < n
        invariant
            n == items@.len(),
            0 <= i <= n,
            pairs_view(r@) == listed(pairs_view(items@).take(i as int)),
        decreases n - i,
    {
        let ghost before = r@;
        assert(pairs_view(items@).take(i + 1).drop_last() =~= pairs_view(items@).take(i as int));
        let it = &items[i];
        if !it.0.as_str().is_empty() && !it.1.as_str().is_empty() {
            r.push((it.0.clone(), it.1.clone()));
            assert(pairs_view(r@) =~= pairs_view(before).push(pairs_view(items@)[i as int]));
        }
        i = i + 1;
    }
    assert(pairs_view(items@).take(n as int) =~= pairs_view(items@));
    r
}

/// The links under the admin list.
pub struct Nav {
    /// A link back to the first page.
    pub first: bool,
    /// The cursor of the next page, if there is one.
    pub next: Option<String>,
}

/// The links under a page that started at `cursor` (empty for the first
/// page) and after which the store has more from `next`: none at all where
/// neither link applies.
pub fn nav(cursor: &String, next: Option<String>) -> (r: Option<Nav>)
    ensures
        r is Some <==> (cursor@.len() > 0 || next is Some),
        r matches Some(v) ==> v.first == (cursor@.len() > 0) && v.next == next,
{
    let first = !cursor.as_str().is_empty();
    if first || next.is_some() {
        Some(Nav { first, next })
    } else {
        None
    }
}

} // verus!
