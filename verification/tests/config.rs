use uattestation::config::{AttestationConfig, ConfigError, ConfigValue, Expected, FloatSetting, Unexpected};

fn s(x: &str) -> String {
    x.to_string()
}

fn sample() -> AttestationConfig {
    let etcd = ConfigValue::Table(
        vec![(
            s("bind"),
            ConfigValue::Array(
                vec![
                    ConfigValue::String(s("http://127.0.0.1:2379")),
                    ConfigValue::Integer(7),
                    ConfigValue::Nil,
                ],
                s("[..]"),
            ),
        )],
        s("{..}"),
    );
    let app = ConfigValue::Table(
        vec![
            (
                s("debug"),
                ConfigValue::Table(
                    vec![(s("enable"), ConfigValue::String(s("Yes")))],
                    s("{debug}"),
                ),
            ),
            (
                s("server"),
                ConfigValue::Table(
                    vec![(s("bind"), ConfigValue::String(s("0.0.0.0:8080")))],
                    s("{server}"),
                ),
            ),
        ],
        s("{app}"),
    );
    let root = ConfigValue::Table(
        vec![
            (s("application"), app),
            (s("etcd"), etcd),
            (s("count"), ConfigValue::Integer(-42)),
            (s("ratio"), ConfigValue::Float(FloatSetting { shown: s("2.5"), rounded: 3, nonzero: true })),
            (s("flag"), ConfigValue::Boolean(true)),
            (s("word"), ConfigValue::String(s("OFF"))),
            (s("number text"), ConfigValue::String(s("+17"))),
            (s("junk"), ConfigValue::String(s("Maybe"))),
            (s("nothing"), ConfigValue::Nil),
        ],
        s("{root}"),
    );
    AttestationConfig::from_root(root)
}

#[test]
fn integers_convert_as_the_loader_defines() {
    let c = sample();
    assert!(matches!(c.get_int("count"), Ok(-42)));
    assert!(matches!(c.get_int("flag"), Ok(1)));
    assert!(matches!(c.get_int("ratio"), Ok(3)));
    assert!(matches!(c.get_int("word"), Ok(0)));
    assert!(matches!(c.get_int("application.debug.enable"), Ok(1)));
    assert!(matches!(c.get_int("number text"), Ok(17)));
    match c.get_int("junk") {
        Err(ConfigError::InvalidType(Unexpected::Str(v), Expected::Integer)) => assert_eq!(v, "Maybe"),
        _ => panic!("expected a type error"),
    }
    assert!(matches!(
        c.get_int("nothing"),
        Err(ConfigError::InvalidType(Unexpected::Unit, Expected::Integer))
    ));
    assert!(matches!(
        c.get_int("etcd"),
        Err(ConfigError::InvalidType(Unexpected::Table, Expected::Integer))
    ));
}

#[test]
fn truth_values_convert_as_the_loader_defines() {
    let c = sample();
    assert!(matches!(c.get_bool("application.debug.enable"), Ok(true)));
    assert!(matches!(c.get_bool("word"), Ok(false)));
    assert!(matches!(c.get_bool("count"), Ok(true)));
    assert!(matches!(c.get_bool("ratio"), Ok(true)));
    match c.get_bool("junk") {
        Err(ConfigError::InvalidType(Unexpected::Str(v), Expected::Boolean)) => assert_eq!(v, "maybe"),
        _ => panic!("expected a type error"),
    }
}

#[test]
fn text_converts_as_the_loader_defines() {
    let c = sample();
    assert_eq!(c.get_str("application.server.bind").ok(), Some(s("0.0.0.0:8080")));
    assert_eq!(c.get_str("count").ok(), Some(s("-42")));
    assert_eq!(c.get_str("flag").ok(), Some(s("true")));
    assert_eq!(c.get_str("ratio").ok(), Some(s("2.5")));
    assert!(matches!(
        c.get_str("etcd.bind"),
        Err(ConfigError::InvalidType(Unexpected::Array, Expected::Str))
    ));
}

#[test]
fn extreme_integers_format_and_parse() {
    let root = ConfigValue::Table(
        vec![
            (s("min"), ConfigValue::Integer(i64::MIN)),
            (s("max"), ConfigValue::Integer(i64::MAX)),
            (s("zero"), ConfigValue::Integer(0)),
            (s("big"), ConfigValue::String(s("9223372036854775808"))),
            (s("low"), ConfigValue::String(s("-9223372036854775808"))),
            (s("sign"), ConfigValue::String(s("-"))),
        ],
        s(""),
    );
    let c = AttestationConfig::from_root(root);
    assert_eq!(c.get_str("min").ok(), Some(i64::MIN.to_string()));
    assert_eq!(c.get_str("max").ok(), Some(i64::MAX.to_string()));
    assert_eq!(c.get_str("zero").ok(), Some(s("0")));
    assert!(c.get_int("big").is_err());
    assert!(matches!(c.get_int("low"), Ok(i64::MIN)));
    assert!(c.get_int("sign").is_err());
}

#[test]
fn arrays_and_subscripts() {
    let c = sample();
    let items = c.get_array("etcd.bind").ok().unwrap();
    assert_eq!(items.len(), 3);
    assert!(matches!(c.get_int("etcd.bind[1]"), Ok(7)));
    assert!(matches!(c.get_int("etcd.bind[ -2 ]"), Ok(7)));
    assert_eq!(c.get_str("etcd.bind[-3]").ok(), Some(s("http://127.0.0.1:2379")));
    assert!(matches!(c.get_int("etcd.bind[3]"), Err(ConfigError::NotFound(_))));
    assert!(matches!(c.get_int("etcd.bind[-4]"), Err(ConfigError::NotFound(_))));
    assert!(matches!(
        c.get_array("count"),
        Err(ConfigError::InvalidType(Unexpected::Integer(-42), Expected::Array))
    ));
    match c.get_array("ratio") {
        Err(ConfigError::InvalidType(Unexpected::Float(v), Expected::Array)) => assert_eq!(v, "2.5"),
        _ => panic!("expected a type error"),
    }
}

#[test]
fn tables() {
    let c = sample();
    let t = c.get_table("application.server").ok().unwrap();
    assert_eq!(t.len(), 1);
    assert_eq!(t[0].0, "bind");
    assert!(matches!(
        c.get_table("flag"),
        Err(ConfigError::InvalidType(Unexpected::Bool(true), Expected::Table))
    ));
}

#[test]
fn missing_keys_and_bad_paths() {
    let c = sample();
    match c.get_int("application.missing") {
        Err(ConfigError::NotFound(k)) => assert_eq!(k, "application.missing"),
        _ => panic!("expected not found"),
    }
    assert!(matches!(c.get_int(""), Err(ConfigError::PathParse)));
    assert!(matches!(c.get_int("a..b"), Err(ConfigError::PathParse)));
    assert!(matches!(c.get_int("etcd.bind[1"), Err(ConfigError::PathParse)));
    assert!(matches!(c.get_int("etcd.bind[x]"), Err(ConfigError::PathParse)));
    assert!(matches!(c.get_int("etcd.bind[99999999999999999999]"), Err(ConfigError::PathParse)));
    assert!(matches!(c.get_int("caf\u{e9}"), Err(ConfigError::PathParse)));
    assert!(matches!(c.get_int("count.x"), Err(ConfigError::NotFound(_))));
}

#[test]
fn display_of_values() {
    assert_eq!(ConfigValue::Nil.to_display(), "nil");
    assert_eq!(ConfigValue::Boolean(false).to_display(), "false");
    assert_eq!(ConfigValue::Integer(-3).to_display(), "-3");
    assert_eq!(ConfigValue::Array(vec![], s("[]")).to_display(), "[]");
}

#[test]
fn copies_are_equal() {
    let c = sample();
    let t = c.get_table("application").ok().unwrap();
    assert_eq!(t.len(), 2);
    assert_eq!(t[1].0, "server");
    match &t[1].1 {
        ConfigValue::Table(inner, shown) => {
            assert_eq!(shown, "{server}");
            assert_eq!(inner[0].0, "bind");
        }
        _ => panic!("expected a table"),
    }
}
