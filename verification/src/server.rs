//! Start-up decisions of the service: how verbosely it logs, where it listens,
//! which etcd endpoints it uses, and how preset access rules are installed.

use vstd::prelude::*;
use crate::config::{self, AttestationConfig};
use crate::text::chars_of;

verus! {

/// How verbosely the service logs.
pub enum LogLevel {
    Info,
    Warn,
}

/// The service logs at `Info` when `application.debug.enable` reads as true,
/// and at `Warn` otherwise (the setting missing or not a truth value too).
pub fn log_level(cfg: &AttestationConfig) -> (r: LogLevel)
    ensures
        (r is Info) == (cfg.lookup("application.debug.enable"@) matches Ok(v) && config::bool_of(v)
            == Ok::<bool, config::ErrorModel>(true)),
{
    match cfg.get_bool("application.debug.enable") {
        Ok(enable) => if enable {
            LogLevel::Info
        } else {
            LogLevel::Warn
        },
        Err(_) => LogLevel::Warn,
    }
}

/// The address the server binds to: `application.server.bind` read as text;
/// `None` where it cannot be read, and the server does not start.
pub fn bind_address(cfg: &AttestationConfig) -> (r: Option<String>)
    ensures
        match cfg.lookup("application.server.bind"@) {
            Ok(v) => match config::str_of(v) {
                Ok(s) => (r matches Some(a) && a@ == s),
                Err(_) => r is None,
            },
            Err(_) => r is None,
        },
{
    match cfg.get_str("application.server.bind") {
        Ok(url) => Some(url),
        Err(_) => None,
    }
}

/// The etcd endpoints are in `etcd.bind`, an array.
pub open spec fn has_etcd_endpoints(cfg: AttestationConfig) -> bool {
    cfg.lookup("etcd.bind"@) matches Ok(v) && config::array_of(v) is Ok
}

/// The etcd endpoints: each item of the array `etcd.bind`, as it displays.
pub fn etcd_endpoints(cfg: &AttestationConfig) -> (r: Vec<String>)
    requires
        has_etcd_endpoints(*cfg),
    ensures
        ({
            let items = config::array_of(cfg.lookup("etcd.bind"@)->Ok_0)->Ok_0;
            &&& r@.len() == items.len()
            &&& forall|i: int| 0 <= i < items.len() ==> #[trigger] r@[i]@ == config::shown_of(items[i])
        }),
{
    match cfg.get_array("etcd.bind") {
        Ok(values) => {
            proof {
                config::lemma_items_model(values@);
            }
            let mut r: Vec<String> = Vec::new();
            let mut i: usize = 0;
            while i < values.len()
                invariant
                    i <= values@.len(),
                    r@.len() == i,
                    config::items_model(values@).len() == values@.len(),
                    forall|j: int| 0 <= j < values@.len() ==> #[trigger] config::items_model(values@)[j] == values@[j].model(),
                    forall|j: int| 0 <= j < i ==> #[trigger] r@[j]@ == config::shown_of(values@[j].model()),
                decreases values@.len() - i,
            {
                r.push(values[i].to_display());
                i = i + 1;
            }
            r
        },
        Err(_) => Vec::new(),
    }
}

/// How a preset access rule is installed.
pub enum PresetRule {
    /// A policy rule, with its fields.
    Policy(Vec<String>),
    /// A grouping rule of the named type, with its fields.
    Grouping(String, Vec<String>),
}

/// The rule type of a preset rule row is its first field; a row may start
/// only with a policy (`p`) or grouping (`g`) type.
pub open spec fn is_preset_row(row: Seq<String>) -> bool {
    row.len() > 0 && row[0]@.len() > 0 && (row[0]@[0] == 'p' || row[0]@[0] == 'g')
}

/// Classifies a preset rule row by the first character of its type field: a
/// `p` type installs the remaining fields as a policy; a `g` type installs
/// them as a grouping rule of that type.
pub fn classify_preset_rule(row: Vec<String>) -> (r: PresetRule)
    requires
        is_preset_row(row@),
    ensures
        row@[0]@[0] == 'p' ==> (r matches PresetRule::Policy(fields) && fields@ == row@.drop_first()),
        row@[0]@[0] != 'p' ==> (r matches PresetRule::Grouping(ptype, fields) && ptype == row@[0]
            && fields@ == row@.drop_first()),
{
    let mut fields = row;
    let ptype = fields.remove(0);
    let c = chars_of(ptype.as_str());
    if c[0] == 'p' {
        PresetRule::Policy(fields)
    } else {
        PresetRule::Grouping(ptype, fields)
    }
}

} // verus!
