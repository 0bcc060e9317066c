use url_shortener::admin::{
    admin_action, authenticate, check_cookies, cookie_secret, listed_rows, nav, upsert_item,
    AdminAction, AdminRequest, AuthOutcome,
};
use url_shortener::config::Config;
use url_shortener::routing::{redirect_outcome, route, Lookup, RedirectOutcome, Route};

fn config() -> Config {
    Config::new(
        "table".to_string(),
        "key".to_string(),
        "https://example.com".to_string(),
        "admin".to_string(),
        "s3cret".to_string(),
    )
}

#[test]
fn config_keeps_its_settings() {
    let c = config();
    assert_eq!(c.get_table_name(), "table");
    assert_eq!(c.get_key_param(), "key");
    assert_eq!(c.get_default_redirect(), "https://example.com");
    assert_eq!(c.get_admin_key(), "admin");
    assert_eq!(c.get_admin_secret(), "s3cret");
}

#[test]
fn routes_by_key() {
    let c = config();
    assert!(matches!(route(&c, None), Route::DefaultRedirect));
    assert!(matches!(route(&c, Some(String::new())), Route::DefaultRedirect));
    assert!(matches!(route(&c, Some("admin".to_string())), Route::Admin));
    match route(&c, Some("gh".to_string())) {
        Route::Redirect(k) => assert_eq!(k, "gh"),
        _ => panic!("expected a redirect"),
    }
}

#[test]
fn lookups_are_answered() {
    match redirect_outcome(Lookup::Url("https://a.b".to_string())) {
        RedirectOutcome::Redirect { url } => assert_eq!(url, "https://a.b"),
        _ => panic!("expected a redirect"),
    }
    let cases = [
        (Lookup::NoItem, 404, "No redirect was found"),
        (Lookup::NoUrl, 500, "The URL for this redirect does not exist"),
        (Lookup::NotText, 500, "The URL for this redirect is invalid"),
        (Lookup::Failed("timeout".to_string()), 500, "timeout"),
    ];
    for (lookup, want_status, want_message) in cases {
        match redirect_outcome(lookup) {
            RedirectOutcome::Error { status, message } => {
                assert_eq!(status, want_status);
                assert_eq!(message, want_message);
            }
            _ => panic!("expected an error page"),
        }
    }
}

#[test]
fn cookie_header_admits() {
    let c = config();
    assert_eq!(
        authenticate(&c, Some("theme=dark; admin_secret=s3cret".to_string())),
        AuthOutcome::Authorized
    );
    assert_eq!(
        authenticate(&c, Some("admin_secret=wrong".to_string())),
        AuthOutcome::LoginPage { invalid_secret: true }
    );
    assert_eq!(
        authenticate(&c, Some("theme=dark".to_string())),
        AuthOutcome::LoginPage { invalid_secret: false }
    );
    assert_eq!(authenticate(&c, None), AuthOutcome::LoginPage { invalid_secret: false });
    assert_eq!(
        authenticate(&c, Some("admin_secret=s3%63ret".to_string())),
        AuthOutcome::Authorized
    );
}

#[test]
fn first_matching_cookie_wins() {
    let c = config();
    let cookies = vec![
        None,
        Some(("admin_secret".to_string(), "s3cret".to_string())),
        Some(("admin_secret".to_string(), "other".to_string())),
    ];
    assert_eq!(cookie_secret(&cookies), Some("s3cret".to_string()));
    assert_eq!(check_cookies(&c, &cookies), AuthOutcome::Authorized);
    assert_eq!(cookie_secret(&vec![]), None);
}

#[test]
fn admin_requests_are_dispatched() {
    let c = config();
    let login_ok = Some(AdminRequest::Login { secret: "s3cret".to_string() });
    let login_bad = Some(AdminRequest::Login { secret: "nope".to_string() });
    let upsert = Some(AdminRequest::Upsert { key: "k".to_string(), url: "u".to_string() });
    let delete = Some(AdminRequest::Delete { key: "k".to_string() });
    let denied = AuthOutcome::LoginPage { invalid_secret: false };
    assert_eq!(admin_action(&c, &login_ok, denied), AdminAction::List { set_cookie: true });
    assert_eq!(
        admin_action(&c, &login_bad, AuthOutcome::Authorized),
        AdminAction::LoginPage { invalid_secret: true }
    );
    assert_eq!(admin_action(&c, &upsert, AuthOutcome::Authorized), AdminAction::Upsert);
    assert_eq!(admin_action(&c, &delete, AuthOutcome::Authorized), AdminAction::Delete);
    assert_eq!(admin_action(&c, &None, AuthOutcome::Authorized), AdminAction::List { set_cookie: false });
    assert_eq!(admin_action(&c, &upsert, denied), AdminAction::LoginPage { invalid_secret: false });
}

#[test]
fn upsert_encodes_the_key() {
    let item = upsert_item(&"a b/c".to_string(), "https://x.y".to_string());
    assert_eq!(item.key, "a%20b%2Fc");
    assert_eq!(item.url, "https://x.y");
}

#[test]
fn rows_skip_incomplete_items() {
    let items = vec![
        ("a".to_string(), "u1".to_string()),
        (String::new(), "u2".to_string()),
        ("c".to_string(), String::new()),
        ("d".to_string(), "u4".to_string()),
    ];
    assert_eq!(
        listed_rows(&items),
        vec![("a".to_string(), "u1".to_string()), ("d".to_string(), "u4".to_string())]
    );
}

#[test]
fn nav_links() {
    assert!(nav(&String::new(), None).is_none());
    let n = nav(&"c1".to_string(), None).unwrap();
    assert!(n.first);
    assert_eq!(n.next, None);
    let n = nav(&String::new(), Some("c2".to_string())).unwrap();
    assert!(!n.first);
    assert_eq!(n.next, Some("c2".to_string()));
}
