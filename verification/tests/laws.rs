use uattestation::auth::{Admission, AuthenticationMiddleware};
use uattestation::config::{AttestationConfig, ConfigValue};
use uattestation::token::{verify_token, UserToken};

fn one(key: &str, v: ConfigValue) -> AttestationConfig {
    AttestationConfig::from_root(ConfigValue::Table(vec![(key.to_string(), v)], String::new()))
}

#[test]
fn integer_text_round_trip() {
    for i in [0i64, 7, -7, 1234567890, i64::MAX, i64::MIN] {
        let text = one("n", ConfigValue::Integer(i)).get_str("n").ok().unwrap();
        let back = one("n", ConfigValue::String(text)).get_int("n").ok().unwrap();
        assert_eq!(back, i);
    }
}

#[test]
fn boolean_round_trips() {
    for b in [true, false] {
        let text = one("b", ConfigValue::Boolean(b)).get_str("b").ok().unwrap();
        assert_eq!(one("b", ConfigValue::String(text)).get_bool("b").ok(), Some(b));
        let n = one("b", ConfigValue::Boolean(b)).get_int("b").ok().unwrap();
        assert_eq!(one("b", ConfigValue::Integer(n)).get_bool("b").ok(), Some(b));
    }
}

#[test]
fn dotted_and_subscript_keys_follow_their_parents() {
    let inner = ConfigValue::Table(vec![("y".to_string(), ConfigValue::Integer(3))], String::new());
    let list = ConfigValue::Array(vec![ConfigValue::Integer(10), ConfigValue::Integer(20)], String::new());
    let cfg = AttestationConfig::from_root(ConfigValue::Table(
        vec![("x".to_string(), inner), ("l".to_string(), list)],
        String::new(),
    ));
    let parent = cfg.get_table("x").ok().unwrap();
    match (&parent[0].1, cfg.get_int("x.y")) {
        (ConfigValue::Integer(a), Ok(b)) => assert_eq!(*a, b),
        _ => panic!("expected integers"),
    }
    let items = cfg.get_array("l").ok().unwrap();
    for (i, item) in items.iter().enumerate() {
        match (item, cfg.get_int(&format!("l[{}]", i))) {
            (ConfigValue::Integer(a), Ok(b)) => assert_eq!(*a, b),
            _ => panic!("expected integers"),
        }
        let back = -(items.len() as i64) + i as i64;
        match (item, cfg.get_int(&format!("l[{}]", back))) {
            (ConfigValue::Integer(a), Ok(b)) => assert_eq!(*a, b),
            _ => panic!("expected integers"),
        }
    }
    assert!(cfg.get_int("x.z").is_err());
    assert!(cfg.get_int("l[2]").is_err());
}

#[test]
fn admission_follows_session_verdict() {
    let claims = UserToken::claims_at(
        uattestation::token::LoginInfo {
            username: "u".to_string(),
            role: "r".to_string(),
            domain: "d".to_string(),
            login_session: "s".to_string(),
        },
        0,
    );
    for valid in [true, false] {
        let verdict = verify_token(&claims, valid);
        let c = UserToken { iat: claims.iat, exp: claims.exp, user: claims.user.clone(), role: claims.role.clone(), domain: claims.domain.clone(), login_session: claims.login_session.clone() };
        match (AuthenticationMiddleware::<()>::conclude(Some(c), valid), verdict) {
            (Admission::Granted(a), Ok(u)) => {
                assert_eq!(a.subject, u);
                assert_eq!(a.domain, Some("d".to_string()));
            }
            (Admission::Denied, Err(_)) => {}
            _ => panic!("admission and verdict disagree"),
        }
    }
}
