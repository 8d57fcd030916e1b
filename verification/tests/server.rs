use uattestation::config::{AttestationConfig, ConfigValue, FloatSetting};
use uattestation::server::{bind_address, classify_preset_rule, etcd_endpoints, log_level, LogLevel, PresetRule};

fn s(x: &str) -> String {
    x.to_string()
}

fn cfg(debug: ConfigValue) -> AttestationConfig {
    let application = ConfigValue::Table(
        vec![
            (s("debug"), ConfigValue::Table(vec![(s("enable"), debug)], s(""))),
            (s("server"), ConfigValue::Table(vec![(s("bind"), ConfigValue::String(s("127.0.0.1:8000")))], s(""))),
        ],
        s(""),
    );
    let etcd = ConfigValue::Table(
        vec![(
            s("bind"),
            ConfigValue::Array(
                vec![
                    ConfigValue::String(s("http://127.0.0.1:2379")),
                    ConfigValue::Float(FloatSetting { shown: s("1.5"), rounded: 2, nonzero: true }),
                    ConfigValue::Nil,
                ],
                s(""),
            ),
        )],
        s(""),
    );
    AttestationConfig::from_root(ConfigValue::Table(vec![(s("application"), application), (s("etcd"), etcd)], s("")))
}

#[test]
fn logging_level_follows_debug_switch() {
    assert!(matches!(log_level(&cfg(ConfigValue::Boolean(true))), LogLevel::Info));
    assert!(matches!(log_level(&cfg(ConfigValue::String(s("on")))), LogLevel::Info));
    assert!(matches!(log_level(&cfg(ConfigValue::Boolean(false))), LogLevel::Warn));
    assert!(matches!(log_level(&cfg(ConfigValue::String(s("perhaps")))), LogLevel::Warn));
    let empty = AttestationConfig::from_root(ConfigValue::Table(vec![], s("")));
    assert!(matches!(log_level(&empty), LogLevel::Warn));
}

#[test]
fn bind_address_is_read_as_text() {
    assert_eq!(bind_address(&cfg(ConfigValue::Nil)), Some(s("127.0.0.1:8000")));
    let empty = AttestationConfig::from_root(ConfigValue::Table(vec![], s("")));
    assert_eq!(bind_address(&empty), None);
}

#[test]
fn endpoints_are_displayed_items() {
    assert_eq!(etcd_endpoints(&cfg(ConfigValue::Nil)), vec![s("http://127.0.0.1:2379"), s("1.5"), s("nil")]);
}

#[test]
fn preset_rules_split_on_type() {
    match classify_preset_rule(vec![s("p"), s("alice"), s("domain1"), s("data1"), s("read")]) {
        PresetRule::Policy(f) => assert_eq!(f, vec![s("alice"), s("domain1"), s("data1"), s("read")]),
        _ => panic!("expected a policy"),
    }
    match classify_preset_rule(vec![s("g2"), s("alice"), s("admin")]) {
        PresetRule::Grouping(t, f) => {
            assert_eq!(t, "g2");
            assert_eq!(f, vec![s("alice"), s("admin")]);
        }
        _ => panic!("expected a grouping"),
    }
    match classify_preset_rule(vec![s("policy")]) {
        PresetRule::Policy(f) => assert!(f.is_empty()),
        _ => panic!("expected a policy"),
    }
}
