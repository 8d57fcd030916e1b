use uattestation::auth::{Admission, Authentication, AuthenticationMiddleware, Screening};
use uattestation::token::UserToken;

fn gate() -> AuthenticationMiddleware<()> {
    let auth = Authentication::new(vec!["/api/echo".to_string(), "/api/token".to_string()]);
    auth.new_transform(())
}

fn granted(s: &Screening) -> Option<(String, Option<String>)> {
    match s {
        Screening::Decided(Admission::Granted(a)) => Some((a.subject.clone(), a.domain.clone())),
        _ => None,
    }
}

fn denied(s: &Screening) -> bool {
    matches!(s, Screening::Decided(Admission::Denied))
}

fn claims(user: &str, domain: &str) -> UserToken {
    UserToken {
        iat: 1,
        exp: 2,
        user: user.to_string(),
        role: "default".to_string(),
        domain: domain.to_string(),
        login_session: "10010".to_string(),
    }
}

#[test]
fn preflight_requests_pass_as_option_in_public() {
    let g = gate();
    let r = g.call(true, "/api/secret", None);
    assert_eq!(granted(&r), Some(("option".to_string(), Some("public".to_string()))));
    let r = g.call(true, "/api/echo", Some(b"garbage"));
    assert_eq!(granted(&r), Some(("option".to_string(), Some("public".to_string()))));
}

#[test]
fn public_routes_pass_as_anonymous() {
    let g = gate();
    let r = g.call(false, "/api/echo", None);
    assert_eq!(granted(&r), Some(("anonymous".to_string(), Some("public".to_string()))));
    let r = g.call(false, "/api/token/create", Some(b"Bearer abc"));
    assert_eq!(granted(&r), Some(("anonymous".to_string(), Some("public".to_string()))));
}

#[test]
fn prefix_match_is_plain_string_prefix() {
    let g = gate();
    let r = g.call(false, "/api/echoes", None);
    assert!(granted(&r).is_some());
    let r = g.call(false, "/api", None);
    assert!(denied(&r));
}

#[test]
fn missing_header_is_denied() {
    let g = gate();
    assert!(denied(&g.call(false, "/api/users", None)));
}

#[test]
fn bearer_token_is_cut_after_seven_bytes_and_trimmed() {
    let g = gate();
    match g.call(false, "/api/users", Some(b"Bearer   abc.def  ")) {
        Screening::Bearer(t) => assert_eq!(t, "abc.def"),
        _ => panic!("expected a bearer token"),
    }
    match g.call(false, "/api/users", Some(b"bearer xyz")) {
        Screening::Bearer(t) => assert_eq!(t, "xyz"),
        _ => panic!("expected a bearer token"),
    }
    match g.call(false, "/api/users", Some(b"Bearerxtoken")) {
        Screening::Bearer(t) => assert_eq!(t, "token"),
        _ => panic!("expected a bearer token"),
    }
    match g.call(false, "/api/users", Some(b"Bearer \t")) {
        Screening::Bearer(t) => assert_eq!(t, ""),
        _ => panic!("expected a bearer token"),
    }
}

#[test]
fn other_schemes_and_non_text_headers_are_denied() {
    let g = gate();
    assert!(denied(&g.call(false, "/api/users", Some(b"BEARER abc"))));
    assert!(denied(&g.call(false, "/api/users", Some(b"Basic abc"))));
    assert!(denied(&g.call(false, "/api/users", Some(b"Bearer ab\x01c"))));
    assert!(denied(&g.call(false, "/api/users", Some("Bearer \u{e9}t\u{e9}".as_bytes()))));
    assert!(denied(&g.call(false, "/api/users", Some(b""))));
}

#[test]
fn token_holders_are_admitted_under_their_claims() {
    let r = AuthenticationMiddleware::<()>::conclude(Some(claims("alice", "domain1")), true);
    match r {
        Admission::Granted(a) => {
            assert_eq!(a.subject, "alice");
            assert_eq!(a.domain, Some("domain1".to_string()));
        }
        Admission::Denied => panic!("expected admission"),
    }
    assert!(matches!(
        AuthenticationMiddleware::<()>::conclude(Some(claims("alice", "domain1")), false),
        Admission::Denied
    ));
    assert!(matches!(AuthenticationMiddleware::<()>::conclude(None, true), Admission::Denied));
}

#[test]
fn transform_keeps_service_and_routes() {
    let auth = Authentication::new(vec!["/a".to_string()]);
    let m = auth.new_transform(7u8);
    assert_eq!(m.service, 7u8);
    assert_eq!(m.ignore_routes, vec!["/a".to_string()]);
}

#[test]
fn bare_scheme_header_on_preflight_and_public_routes() {
    let g = gate();
    assert_eq!(granted(&g.call(true, "/api/users", Some(b"Bearer"))), Some(("option".to_string(), Some("public".to_string()))));
    assert_eq!(granted(&g.call(false, "/api/echo", Some(b"bearer"))), Some(("anonymous".to_string(), Some("public".to_string()))));
}
