use uattestation::clock::ClockReading;
use uattestation::token::{token_request, verify_token, LoginInfo, UserToken, ONE_WEEK};

fn login() -> LoginInfo {
    LoginInfo {
        username: "anonymous".to_string(),
        role: "".to_string(),
        domain: "public".to_string(),
        login_session: "10010".to_string(),
    }
}

#[test]
fn test() {
    let claims = UserToken::generate_claims(login()).unwrap();
    let mut map = serde_json::Map::new();
    map.insert("iat".to_string(), serde_json::Value::from(claims.iat));
    map.insert("exp".to_string(), serde_json::Value::from(claims.exp));
    map.insert("user".to_string(), serde_json::Value::from(claims.user.clone()));
    map.insert("role".to_string(), serde_json::Value::from(claims.role.clone()));
    map.insert("domain".to_string(), serde_json::Value::from(claims.domain.clone()));
    map.insert("login_session".to_string(), serde_json::Value::from(claims.login_session.clone()));
    let key = [7u8; 16];
    let token = jsonwebtoken::encode(
        &jsonwebtoken::Header::default(),
        &serde_json::Value::Object(map),
        &jsonwebtoken::EncodingKey::from_secret(&key),
    )
    .unwrap();
    println!("{}", token);
    let decoded = jsonwebtoken::decode::<serde_json::Value>(
        &token,
        &jsonwebtoken::DecodingKey::from_secret(&key),
        &jsonwebtoken::Validation::default(),
    )
    .unwrap();
    assert_eq!(decoded.claims["user"], "anonymous");
    assert_eq!(decoded.claims["domain"], "public");
    assert_eq!(decoded.claims["login_session"], "10010");
}

#[test]
fn claims_expire_a_week_after_issue() {
    let t = UserToken::claims_at(login(), 1_700_000_000_123_456_789);
    assert_eq!(t.iat, 1_700_000_000);
    assert_eq!(t.exp, 1_700_000_000 + 604_800);
    assert_eq!(ONE_WEEK, 604_800);
    assert_eq!(t.user, "anonymous");
    assert_eq!(t.role, "");
    assert_eq!(t.domain, "public");
    assert_eq!(t.login_session, "10010");
}

#[test]
fn negative_instants_truncate_toward_zero() {
    let t = UserToken::claims_at(login(), -1_500_000_000);
    assert_eq!(t.iat, -1);
    assert_eq!(t.exp, -1 + 604_800);
    let t = UserToken::claims_at(login(), i64::MIN);
    assert_eq!(t.iat, i64::MIN / 1_000_000_000);
}

#[test]
fn issued_claims_use_the_clock() {
    let t = UserToken::generate_claims(login()).unwrap();
    assert!(t.iat > 1_600_000_000);
    assert_eq!(t.exp - t.iat, ONE_WEEK);
}

#[test]
fn token_requests_get_default_role_and_fixed_session() {
    let r = token_request { name: "bob".to_string(), email: "b@x".to_string(), domain: "d2".to_string() };
    let l = r.login_info();
    assert_eq!(l.username, "bob");
    assert_eq!(l.role, "default");
    assert_eq!(l.domain, "d2");
    assert_eq!(l.login_session, "10010");
}

#[test]
fn session_verdicts() {
    let t = UserToken::claims_at(login(), 0);
    assert_eq!(verify_token(&t, true), Ok("anonymous".to_string()));
    assert_eq!(verify_token(&t, false), Err("Invalid token".to_string()));
}

#[test]
fn claims_follow_the_clock_reading() {
    let t = UserToken::claims_for_reading(login(), ClockReading { seconds: 5, nanos: Some(5_000_000_001) }).unwrap();
    assert_eq!(t.iat, 5);
    assert_eq!(t.exp, 5 + ONE_WEEK);
    assert!(UserToken::claims_for_reading(login(), ClockReading { seconds: 5, nanos: None }).is_none());
}
