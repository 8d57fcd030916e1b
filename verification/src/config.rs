//! Settings of the service: a tree of values, read by path keys such as
//! `application.server.bind` or `etcd.bind[0]`, with typed getters that convert
//! the value found as the configuration loader defines it.

use vstd::prelude::*;
use crate::keypath::{self, PathStep, Step, parse_key};
use crate::text::{self, format_int, parse_int, same_text, to_lowercase};

verus! {

/// A floating-point setting, held by what the getters make of it: its text,
/// its value rounded to an integer, and whether it is non-zero.
pub struct FloatSetting {
    pub shown: String,
    pub rounded: i64,
    pub nonzero: bool,
}

/// A configuration value. Tables and arrays also carry the text that they
/// display as.
pub enum ConfigValue {
    Nil,
    Boolean(bool),
    Integer(i64),
    Float(FloatSetting),
    String(String),
    Table(Vec<(String, ConfigValue)>, String),
    Array(Vec<ConfigValue>, String),
}

/// The mathematical model of a [`ConfigValue`].
pub enum Setting {
    Nil,
    Boolean(bool),
    Integer(i64),
    /// Text, rounded value, non-zero.
    Float(Seq<char>, i64, bool),
    Text(Seq<char>),
    Table(Seq<(Seq<char>, Setting)>, Seq<char>),
    Array(Seq<Setting>, Seq<char>),
}

impl ConfigValue {
    pub open spec fn model(self) -> Setting
        decreases self,
    {
        match self {
            ConfigValue::Nil => Setting::Nil,
            ConfigValue::Boolean(b) => Setting::Boolean(b),
            ConfigValue::Integer(i) => Setting::Integer(i),
            ConfigValue::Float(f) => Setting::Float(f.shown@, f.rounded, f.nonzero),
            ConfigValue::String(s) => Setting::Text(s@),
            ConfigValue::Table(t, shown) => Setting::Table(entries_model(t@), shown@),
            ConfigValue::Array(a, shown) => Setting::Array(items_model(a@), shown@),
        }
    }
}

/// The model of a table's entries.
pub open spec fn entries_model(s: Seq<(String, ConfigValue)>) -> Seq<(Seq<char>, Setting)>
    decreases s,
{
    if s.len() == 0 {
        seq![]
    } else {
        seq![(s[0].0@, s[0].1.model())] + entries_model(s.subrange(1, s.len() as int))
    }
}

/// The model of an array's items.
pub open spec fn items_model(s: Seq<ConfigValue>) -> Seq<Setting>
    decreases s,
{
    if s.len() == 0 {
        seq![]
    } else {
        seq![s[0].model()] + items_model(s.subrange(1, s.len() as int))
    }
}

pub proof fn lemma_entries_model(s: Seq<(String, ConfigValue)>)
    ensures
        entries_model(s).len() == s.len(),
        forall|i: int|
            0 <= i < s.len() ==> #[trigger] entries_model(s)[i] == (s[i].0@, s[i].1.model()),
    decreases s.len(),
{
    if s.len() > 0 {
        let t = s.subrange(1, s.len() as int);
        lemma_entries_model(t);
        assert forall|i: int| 0 <= i < s.len() implies #[trigger] entries_model(s)[i] == (
            s[i].0@,
            s[i].1.model(),
        ) by {
            if i > 0 {
                assert(t[i - 1] == s[i]);
            }
        }
    }
}

pub proof fn lemma_items_model(s: Seq<ConfigValue>)
    ensures
        items_model(s).len() == s.len(),
        forall|i: int| 0 <= i < s.len() ==> #[trigger] items_model(s)[i] == s[i].model(),
    decreases s.len(),
{
    if s.len() > 0 {
        let t = s.subrange(1, s.len() as int);
        lemma_items_model(t);
        assert forall|i: int| 0 <= i < s.len() implies #[trigger] items_model(s)[i]
            == s[i].model() by {
            if i > 0 {
                assert(t[i - 1] == s[i]);
            }
        }
    }
}

/// Two sequences whose items have the same models have the same model.
proof fn lemma_items_model_ext(a: Seq<ConfigValue>, b: Seq<ConfigValue>)
    requires
        a.len() == b.len(),
        forall|i: int| 0 <= i < a.len() ==> #[trigger] a[i].model() == b[i].model(),
    ensures
        items_model(a) == items_model(b),
{
    lemma_items_model(a);
    lemma_items_model(b);
    assert(items_model(a) =~= items_model(b));
}

proof fn lemma_entries_model_ext(a: Seq<(String, ConfigValue)>, b: Seq<(String, ConfigValue)>)
    requires
        a.len() == b.len(),
        forall|i: int|
            0 <= i < a.len() ==> #[trigger] a[i].0@ == b[i].0@ && a[i].1.model() == b[i].1.model(),
    ensures
        entries_model(a) == entries_model(b),
{
    lemma_entries_model(a);
    lemma_entries_model(b);
    assert(entries_model(a) =~= entries_model(b));
}

impl FloatSetting {
    fn duplicate(&self) -> (r: FloatSetting)
        ensures
            r.shown@ == self.shown@,
            r.rounded == self.rounded,
            r.nonzero == self.nonzero,
    {
        FloatSetting { shown: self.shown.clone(), rounded: self.rounded, nonzero: self.nonzero }
    }
}

impl ConfigValue {
    /// A copy of the value.
    pub fn duplicate(&self) -> (r: ConfigValue)
        ensures
            r.model() == self.model(),
        decreases self,
    {
        match self {
            ConfigValue::Nil => ConfigValue::Nil,
            ConfigValue::Boolean(b) => ConfigValue::Boolean(*b),
            ConfigValue::Integer(i) => ConfigValue::Integer(*i),
            ConfigValue::Float(f) => ConfigValue::Float(f.duplicate()),
            ConfigValue::String(s) => ConfigValue::String(s.clone()),
            ConfigValue::Table(t, shown) => ConfigValue::Table(copy_entries(t), shown.clone()),
            ConfigValue::Array(a, shown) => ConfigValue::Array(copy_items(a), shown.clone()),
        }
    }
}

/// A copy of a table's entries.
pub fn copy_entries(t: &Vec<(String, ConfigValue)>) -> (r: Vec<(String, ConfigValue)>)
    ensures
        entries_model(r@) == entries_model(t@),
    decreases t,
{
    let mut r: Vec<(String, ConfigValue)> = Vec::new();
    let mut i: usize = 0;
    while i < t.len()
        invariant
            i <= t@.len(),
            r@.len() == i,
            forall|j: int|
                0 <= j < i ==> #[trigger] r@[j].0@ == t@[j].0@ && r@[j].1.model() == t@[j].1.model(),
        decreases t@.len() - i,
    {
        let key = t[i].0.clone();
        let value = t[i].1.duplicate();
        r.push((key, value));
        i = i + 1;
    }
    proof {
        lemma_entries_model_ext(r@, t@);
    }
    r
}

/// A copy of an array's items.
pub fn copy_items(a: &Vec<ConfigValue>) -> (r: Vec<ConfigValue>)
    ensures
        items_model(r@) == items_model(a@),
    decreases a,
{
    let mut r: Vec<ConfigValue> = Vec::new();
    let mut i: usize = 0;
    while i < a.len()
        invariant
            i <= a@.len(),
            r@.len() == i,
            forall|j: int| 0 <= j < i ==> #[trigger] r@[j].model() == a@[j].model(),
        decreases a@.len() - i,
    {
        let value = a[i].duplicate();
        r.push(value);
        i = i + 1;
    }
    proof {
        lemma_items_model_ext(r@, a@);
    }
    r
}

/// The value under `key` in a table's entries: the first entry with that key.
pub open spec fn table_get(es: Seq<(Seq<char>, Setting)>, key: Seq<char>) -> Option<Setting>
    decreases es.len(),
{
    if es.len() == 0 {
        None
    } else if es[0].0 == key {
        Some(es[0].1)
    } else {
        table_get(es.drop_first(), key)
    }
}

/// The position that index `i` names in an array of length `len`; a
/// negative index counts from the end.
pub open spec fn array_position(len: int, i: int) -> int {
    if i >= 0 {
        i
    } else {
        len + i
    }
}

/// The value that one step leads to from `v`: a key leads into a table, an
/// index into an array.
pub open spec fn step_get(v: Setting, st: Step) -> Option<Setting> {
    match st {
        Step::Key(k) => match v {
            Setting::Table(es, _) => table_get(es, k),
            _ => None,
        },
        Step::Index(i) => match v {
            Setting::Array(items, _) => {
                let p: int = array_position(items.len() as int, i);
                if 0 <= p < items.len() {
                    Some(items[p])
                } else {
                    None
                }
            },
            _ => None,
        },
    }
}

/// The value that a path leads to from `v`.
pub open spec fn path_get(v: Setting, p: Seq<Step>) -> Option<Setting>
    decreases p.len(),
{
    if p.len() == 0 {
        Some(v)
    } else {
        match step_get(v, p[0]) {
            Some(w) => path_get(w, p.drop_first()),
            None => None,
        }
    }
}

/// The entry of a table under `key`.
fn table_entry<'a>(t: &'a Vec<(String, ConfigValue)>, key: &String) -> (r: Option<&'a ConfigValue>)
    ensures
        match table_get(entries_model(t@), key@) {
            Some(m) => (r matches Some(v) && v.model() == m),
            None => r is None,
        },
{
    proof {
        lemma_entries_model(t@);
    }
    let ghost es = entries_model(t@);
    let mut j: usize = 0;
    assert(es.subrange(0, es.len() as int) =~= es);
    while j < t.len()
        invariant
            j <= t@.len(),
            es == entries_model(t@),
            es.len() == t@.len(),
            forall|i: int| 0 <= i < t@.len() ==> #[trigger] es[i] == (t@[i].0@, t@[i].1.model()),
            table_get(es, key@) == table_get(es.subrange(j as int, es.len() as int), key@),
        decreases t@.len() - j,
    {
        let ghost rest = es.subrange(j as int, es.len() as int);
        assert(rest[0] == es[j as int]);
        if t[j].0 == *key {
            return Some(&t[j].1);
        }
        assert(rest.drop_first() =~= es.subrange(j + 1, es.len() as int));
        j = j + 1;
    }
    None
}

/// The value that a parsed path leads to from `root`.
fn find<'a>(root: &'a ConfigValue, steps: &Vec<PathStep>) -> (r: Option<&'a ConfigValue>)
    ensures
        match path_get(root.model(), keypath::steps_model(steps@)) {
            Some(m) => (r matches Some(v) && v.model() == m),
            None => r is None,
        },
{
    let ghost sm = keypath::steps_model(steps@);
    let mut cur: &'a ConfigValue = root;
    let mut i: usize = 0;
    assert(sm.subrange(0, sm.len() as int) =~= sm);
    while i < steps.len()
        invariant
            i <= steps@.len(),
            sm == keypath::steps_model(steps@),
            sm.len() == steps@.len(),
            path_get(root.model(), sm) == path_get(cur.model(), sm.subrange(i as int, sm.len() as int)),
        decreases steps@.len() - i,
    {
        let ghost rest = sm.subrange(i as int, sm.len() as int);
        assert(rest[0] == steps@[i as int].model());
        assert(rest.drop_first() =~= sm.subrange(i + 1, sm.len() as int));
        let next: Option<&'a ConfigValue> = match &steps[i] {
            PathStep::Key(k) => match cur {
                ConfigValue::Table(t, _) => table_entry(t, k),
                _ => None,
            },
            PathStep::Index(ix) => match cur {
                ConfigValue::Array(items, _) => {
                    proof {
                        lemma_items_model(items@);
                    }
                    let len: usize = items.len();
                    if *ix >= 0 {
                        if (*ix as u64) < (len as u64) {
                            Some(&items[*ix as usize])
                        } else {
                            None
                        }
                    } else if (len as i128) + (*ix as i128) >= 0 {
                        let p: usize = ((len as i128) + (*ix as i128)) as usize;
                        Some(&items[p])
                    } else {
                        None
                    }
                },
                _ => None,
            },
        };
        match next {
            Some(v) => {
                cur = v;
            },
            None => {
                return None;
            },
        }
        i = i + 1;
    }
    Some(cur)
}

/// What a value was found to be where another kind was expected.
pub enum Unexpected {
    Unit,
    Bool(bool),
    Integer(i64),
    Float(String),
    Str(String),
    Table,
    Array,
}

/// The kind of value that a getter expected.
pub enum Expected {
    Boolean,
    Integer,
    Str,
    Array,
    Table,
}

/// Why a setting could not be read.
pub enum ConfigError {
    /// No value is stored under the key.
    NotFound(String),
    /// The key is not a path.
    PathParse,
    /// The value found does not convert to the kind asked for.
    InvalidType(Unexpected, Expected),
}

/// The model of an [`Unexpected`].
pub enum UnexpectedModel {
    Unit,
    Bool(bool),
    Integer(i64),
    Float(Seq<char>),
    Str(Seq<char>),
    Table,
    Array,
}

/// The model of a [`ConfigError`].
pub enum ErrorModel {
    NotFound(Seq<char>),
    PathParse,
    InvalidType(UnexpectedModel, Expected),
}

impl Unexpected {
    pub open spec fn model(self) -> UnexpectedModel {
        match self {
            Unexpected::Unit => UnexpectedModel::Unit,
            Unexpected::Bool(b) => UnexpectedModel::Bool(b),
            Unexpected::Integer(i) => UnexpectedModel::Integer(i),
            Unexpected::Float(s) => UnexpectedModel::Float(s@),
            Unexpected::Str(s) => UnexpectedModel::Str(s@),
            Unexpected::Table => UnexpectedModel::Table,
            Unexpected::Array => UnexpectedModel::Array,
        }
    }
}

impl ConfigError {
    pub open spec fn model(self) -> ErrorModel {
        match self {
            ConfigError::NotFound(k) => ErrorModel::NotFound(k@),
            ConfigError::PathParse => ErrorModel::PathParse,
            ConfigError::InvalidType(u, e) => ErrorModel::InvalidType(u.model(), e),
        }
    }
}

/// How a value is reported when it is not of the kind expected.
pub open spec fn unexpected_of(v: Setting) -> UnexpectedModel {
    match v {
        Setting::Nil => UnexpectedModel::Unit,
        Setting::Boolean(b) => UnexpectedModel::Bool(b),
        Setting::Integer(i) => UnexpectedModel::Integer(i),
        Setting::Float(shown, _, _) => UnexpectedModel::Float(shown),
        Setting::Text(s) => UnexpectedModel::Str(s),
        Setting::Table(_, _) => UnexpectedModel::Table,
        Setting::Array(_, _) => UnexpectedModel::Array,
    }
}

/// The truth value that a lower-cased word stands for.
pub open spec fn truth_word(w: Seq<char>) -> Option<bool> {
    if w == "1"@ || w == "true"@ || w == "on"@ || w == "yes"@ {
        Some(true)
    } else if w == "0"@ || w == "false"@ || w == "off"@ || w == "no"@ {
        Some(false)
    } else {
        None
    }
}

/// The number that a lower-cased word stands for.
pub open spec fn number_word(w: Seq<char>) -> Option<i64> {
    if w == "true"@ || w == "on"@ || w == "yes"@ {
        Some(1)
    } else if w == "false"@ || w == "off"@ || w == "no"@ {
        Some(0)
    } else {
        None
    }
}

/// A value read as an integer.
pub open spec fn int_of(v: Setting) -> Result<i64, ErrorModel> {
    match v {
        Setting::Integer(i) => Ok(i),
        Setting::Text(s) => match number_word(text::lower_text(s)) {
            Some(n) => Ok(n),
            None => match text::parse_i64(s) {
                Some(n) => Ok(n),
                None => Err(ErrorModel::InvalidType(UnexpectedModel::Str(s), Expected::Integer)),
            },
        },
        Setting::Boolean(b) => Ok(
            if b {
                1
            } else {
                0
            },
        ),
        Setting::Float(_, rounded, _) => Ok(rounded),
        _ => Err(ErrorModel::InvalidType(unexpected_of(v), Expected::Integer)),
    }
}

/// A value read as a truth value.
pub open spec fn bool_of(v: Setting) -> Result<bool, ErrorModel> {
    match v {
        Setting::Boolean(b) => Ok(b),
        Setting::Integer(i) => Ok(i != 0),
        Setting::Float(_, _, nonzero) => Ok(nonzero),
        Setting::Text(s) => match truth_word(text::lower_text(s)) {
            Some(b) => Ok(b),
            None => Err(
                ErrorModel::InvalidType(UnexpectedModel::Str(text::lower_text(s)), Expected::Boolean),
            ),
        },
        _ => Err(ErrorModel::InvalidType(unexpected_of(v), Expected::Boolean)),
    }
}

/// A value read as text.
pub open spec fn str_of(v: Setting) -> Result<Seq<char>, ErrorModel> {
    match v {
        Setting::Text(s) => Ok(s),
        Setting::Boolean(b) => Ok(
            if b {
                "true"@
            } else {
                "false"@
            },
        ),
        Setting::Integer(i) => Ok(text::decimal(i as int)),
        Setting::Float(shown, _, _) => Ok(shown),
        _ => Err(ErrorModel::InvalidType(unexpected_of(v), Expected::Str)),
    }
}

/// A value read as an array.
pub open spec fn array_of(v: Setting) -> Result<Seq<Setting>, ErrorModel> {
    match v {
        Setting::Array(items, _) => Ok(items),
        _ => Err(ErrorModel::InvalidType(unexpected_of(v), Expected::Array)),
    }
}

/// A value read as a table.
pub open spec fn table_of(v: Setting) -> Result<Seq<(Seq<char>, Setting)>, ErrorModel> {
    match v {
        Setting::Table(es, _) => Ok(es),
        _ => Err(ErrorModel::InvalidType(unexpected_of(v), Expected::Table)),
    }
}

/// The truth value of a lower-cased word: `1`, `true`, `on`, `yes` are true;
/// `0`, `false`, `off`, `no` are false.
pub fn truth_of_word(w: &str) -> (r: Option<bool>)
    ensures
        r == truth_word(w@),
{
    if same_text(w, "1") || same_text(w, "true") || same_text(w, "on") || same_text(w, "yes") {
        Some(true)
    } else if same_text(w, "0") || same_text(w, "false") || same_text(w, "off") || same_text(
        w,
        "no",
    ) {
        Some(false)
    } else {
        None
    }
}

/// The number of a lower-cased word: `true`, `on`, `yes` are 1; `false`,
/// `off`, `no` are 0.
pub fn number_of_word(w: &str) -> (r: Option<i64>)
    ensures
        r == number_word(w@),
{
    if same_text(w, "true") || same_text(w, "on") || same_text(w, "yes") {
        Some(1)
    } else if same_text(w, "false") || same_text(w, "off") || same_text(w, "no") {
        Some(0)
    } else {
        None
    }
}

/// How `v` is reported when it is not of the kind expected.
fn unexpected(v: &ConfigValue) -> (r: Unexpected)
    ensures
        r.model() == unexpected_of(v.model()),
{
    match v {
        ConfigValue::Nil => Unexpected::Unit,
        ConfigValue::Boolean(b) => Unexpected::Bool(*b),
        ConfigValue::Integer(i) => Unexpected::Integer(*i),
        ConfigValue::Float(f) => Unexpected::Float(f.shown.clone()),
        ConfigValue::String(s) => Unexpected::Str(s.clone()),
        ConfigValue::Table(_, _) => Unexpected::Table,
        ConfigValue::Array(_, _) => Unexpected::Array,
    }
}

/// The model of a getter's result whose value is a plain value.
pub open spec fn plain_result<T>(r: Result<T, ConfigError>) -> Result<T, ErrorModel> {
    match r {
        Ok(t) => Ok(t),
        Err(e) => Err(e.model()),
    }
}

/// The model of a getter's result whose value is text.
pub open spec fn text_result(r: Result<String, ConfigError>) -> Result<Seq<char>, ErrorModel> {
    match r {
        Ok(t) => Ok(t@),
        Err(e) => Err(e.model()),
    }
}

/// The model of a getter's result whose value is an array.
pub open spec fn array_result(r: Result<Vec<ConfigValue>, ConfigError>) -> Result<
    Seq<Setting>,
    ErrorModel,
> {
    match r {
        Ok(t) => Ok(items_model(t@)),
        Err(e) => Err(e.model()),
    }
}

/// The model of a getter's result whose value is a table.
pub open spec fn table_result(r: Result<Vec<(String, ConfigValue)>, ConfigError>) -> Result<
    Seq<(Seq<char>, Setting)>,
    ErrorModel,
> {
    match r {
        Ok(t) => Ok(entries_model(t@)),
        Err(e) => Err(e.model()),
    }
}

impl ConfigValue {
    /// The value read as an integer.
    pub fn into_int(&self) -> (r: Result<i64, ConfigError>)
        ensures
            plain_result(r) == int_of(self.model()),
    {
        match self {
            ConfigValue::Integer(i) => Ok(*i),
            ConfigValue::String(s) => {
                let lower = to_lowercase(s.as_str());
                assert(lower@ == text::lower_text(s@));
                match number_of_word(lower.as_str()) {
                    Some(n) => Ok(n),
                    None => match parse_int(s.as_str()) {
                        Some(n) => Ok(n),
                        None => Err(
                            ConfigError::InvalidType(Unexpected::Str(s.clone()), Expected::Integer),
                        ),
                    },
                }
            },
            ConfigValue::Boolean(b) => Ok(
                if *b {
                    1
                } else {
                    0
                },
            ),
            ConfigValue::Float(f) => Ok(f.rounded),
            _ => Err(ConfigError::InvalidType(unexpected(self), Expected::Integer)),
        }
    }

    /// The value read as a truth value.
    pub fn into_bool(&self) -> (r: Result<bool, ConfigError>)
        ensures
            plain_result(r) == bool_of(self.model()),
    {
        match self {
            ConfigValue::Boolean(b) => Ok(*b),
            ConfigValue::Integer(i) => Ok(*i != 0),
            ConfigValue::Float(f) => Ok(f.nonzero),
            ConfigValue::String(s) => {
                let lower = to_lowercase(s.as_str());
                assert(lower@ == text::lower_text(s@));
                match truth_of_word(lower.as_str()) {
                    Some(b) => Ok(b),
                    None => Err(ConfigError::InvalidType(Unexpected::Str(lower), Expected::Boolean)),
                }
            },
            _ => Err(ConfigError::InvalidType(unexpected(self), Expected::Boolean)),
        }
    }

    /// The value read as text.
    pub fn into_str(&self) -> (r: Result<String, ConfigError>)
        ensures
            text_result(r) == str_of(self.model()),
    {
        match self {
            ConfigValue::String(s) => Ok(s.clone()),
            ConfigValue::Boolean(b) => Ok(
                if *b {
                    String::from_str("true")
                } else {
                    String::from_str("false")
                },
            ),
            ConfigValue::Integer(i) => Ok(format_int(*i)),
            ConfigValue::Float(f) => Ok(f.shown.clone()),
            _ => Err(ConfigError::InvalidType(unexpected(self), Expected::Str)),
        }
    }

    /// The value read as an array.
    pub fn into_array(&self) -> (r: Result<Vec<ConfigValue>, ConfigError>)
        ensures
            array_result(r) == array_of(self.model()),
    {
        match self {
            ConfigValue::Array(items, _) => Ok(copy_items(items)),
            _ => Err(ConfigError::InvalidType(unexpected(self), Expected::Array)),
        }
    }

    /// The value read as a table.
    pub fn into_table(&self) -> (r: Result<Vec<(String, ConfigValue)>, ConfigError>)
        ensures
            table_result(r) == table_of(self.model()),
    {
        match self {
            ConfigValue::Table(es, _) => Ok(copy_entries(es)),
            _ => Err(ConfigError::InvalidType(unexpected(self), Expected::Table)),
        }
    }
}

/// The text that a value displays as.
pub open spec fn shown_of(v: Setting) -> Seq<char> {
    match v {
        Setting::Nil => "nil"@,
        Setting::Boolean(b) => if b {
            "true"@
        } else {
            "false"@
        },
        Setting::Integer(i) => text::decimal(i as int),
        Setting::Float(shown, _, _) => shown,
        Setting::Text(s) => s,
        Setting::Table(_, shown) => shown,
        Setting::Array(_, shown) => shown,
    }
}

impl ConfigValue {
    /// The text that the value displays as.
    pub fn to_display(&self) -> (r: String)
        ensures
            r@ == shown_of(self.model()),
    {
        match self {
            ConfigValue::Nil => String::from_str("nil"),
            ConfigValue::Boolean(b) => if *b {
                String::from_str("true")
            } else {
                String::from_str("false")
            },
            ConfigValue::Integer(i) => format_int(*i),
            ConfigValue::Float(f) => f.shown.clone(),
            ConfigValue::String(s) => s.clone(),
            ConfigValue::Table(_, shown) => shown.clone(),
            ConfigValue::Array(_, shown) => shown.clone(),
        }
    }
}

/// The settings of the service: a tree of values whose root is normally a table.
pub struct AttestationConfig {
    pub root: ConfigValue,
}

impl AttestationConfig {
    /// Settings with the given value tree.
    pub fn from_root(root: ConfigValue) -> (r: AttestationConfig)
        ensures
            r.root == root,
    {
        AttestationConfig { root }
    }

    /// The value stored under `key`: `PathParse` where the key is no path,
    /// `NotFound` where the path leads nowhere.
    pub open spec fn lookup(self, key: Seq<char>) -> Result<Setting, ErrorModel> {
        match keypath::parse_path(key) {
            None => Err(ErrorModel::PathParse),
            Some(p) => match path_get(self.root.model(), p) {
                Some(v) => Ok(v),
                None => Err(ErrorModel::NotFound(key)),
            },
        }
    }

    fn locate(&self, key: &str) -> (r: Result<&ConfigValue, ConfigError>)
        ensures
            match self.lookup(key@) {
                Ok(m) => (r matches Ok(v) && v.model() == m),
                Err(e) => (r matches Err(x) && x.model() == e),
            },
    {
        match parse_key(key) {
            None => Err(ConfigError::PathParse),
            Some(steps) => match find(&self.root, &steps) {
                Some(v) => Ok(v),
                None => Err(ConfigError::NotFound(String::from_str(key))),
            },
        }
    }

    /// The integer stored under `key`.
    pub fn get_int(&self, key: &str) -> (r: Result<i64, ConfigError>)
        ensures
            plain_result(r) == match self.lookup(key@) {
                Ok(v) => int_of(v),
                Err(e) => Err(e),
            },
    {
        match self.locate(key) {
            Ok(v) => v.into_int(),
            Err(e) => Err(e),
        }
    }

    /// The text stored under `key`.
    pub fn get_str(&self, key: &str) -> (r: Result<String, ConfigError>)
        ensures
            text_result(r) == match self.lookup(key@) {
                Ok(v) => str_of(v),
                Err(e) => Err(e),
            },
    {
        match self.locate(key) {
            Ok(v) => v.into_str(),
            Err(e) => Err(e),
        }
    }

    /// The truth value stored under `key`.
    pub fn get_bool(&self, key: &str) -> (r: Result<bool, ConfigError>)
        ensures
            plain_result(r) == match self.lookup(key@) {
                Ok(v) => bool_of(v),
                Err(e) => Err(e),
            },
    {
        match self.locate(key) {
            Ok(v) => v.into_bool(),
            Err(e) => Err(e),
        }
    }

    /// The array stored under `key`.
    pub fn get_array(&self, key: &str) -> (r: Result<Vec<ConfigValue>, ConfigError>)
        ensures
            array_result(r) == match self.lookup(key@) {
                Ok(v) => array_of(v),
                Err(e) => Err(e),
            },
    {
        match self.locate(key) {
            Ok(v) => v.into_array(),
            Err(e) => Err(e),
        }
    }

    /// The table stored under `key`.
    pub fn get_table(&self, key: &str) -> (r: Result<Vec<(String, ConfigValue)>, ConfigError>)
        ensures
            table_result(r) == match self.lookup(key@) {
                Ok(v) => table_of(v),
                Err(e) => Err(e),
            },
    {
        match self.locate(key) {
            Ok(v) => v.into_table(),
            Err(e) => Err(e),
        }
    }
}

/// A dotted key `a.b` reads the entry `b` of the table that the key `a`
/// reads; where `a` reads nothing, or no such entry, `a.b` is not found.
pub proof fn law_dotted_lookup(cfg: AttestationConfig, a: Seq<char>, b: Seq<char>)
    requires
        keypath::is_identifier(a),
        keypath::is_identifier(b),
    ensures
        cfg.lookup(a + seq!['.'] + b) == match cfg.lookup(a) {
            Ok(v) => match step_get(v, Step::Key(b)) {
                Some(w) => Ok(w),
                None => Err(ErrorModel::NotFound(a + seq!['.'] + b)),
            },
            Err(_) => Err(ErrorModel::NotFound(a + seq!['.'] + b)),
        },
{
    keypath::law_identifier_path(a);
    keypath::law_dotted_path(a, b);
    let one = seq![Step::Key(a)];
    let two = seq![Step::Key(a), Step::Key(b)];
    assert(one.drop_first() =~= Seq::<Step>::empty());
    assert(two.drop_first() =~= seq![Step::Key(b)]);
    assert(seq![Step::Key(b)].drop_first() =~= Seq::<Step>::empty());
    let root = cfg.root.model();
    match step_get(root, Step::Key(a)) {
        Some(w) => {
            assert(path_get(w, Seq::<Step>::empty()) == Some(w));
            assert(path_get(root, one) == Some(w));
            match step_get(w, Step::Key(b)) {
                Some(x) => {
                    assert(path_get(x, Seq::<Step>::empty()) == Some(x));
                    assert(path_get(w, seq![Step::Key(b)]) == Some(x));
                    assert(path_get(root, two) == Some(x));
                },
                None => {
                    assert(path_get(w, seq![Step::Key(b)]) is None);
                    assert(path_get(root, two) is None);
                },
            }
        },
        None => {
            assert(path_get(root, one) is None);
            assert(path_get(root, two) is None);
        },
    }
}

/// A key `a[i]` reads the item at position `i` (counted from the end where
/// negative) of the array that the key `a` reads; where `a` reads nothing,
/// or no such item, `a[i]` is not found.
pub proof fn law_subscript_lookup(cfg: AttestationConfig, a: Seq<char>, i: i64)
    requires
        keypath::is_identifier(a),
    ensures
        ({
            let key = a + seq!['['] + text::decimal(i as int) + seq![']'];
            cfg.lookup(key) == match cfg.lookup(a) {
                Ok(v) => match step_get(v, Step::Index(i as int)) {
                    Some(w) => Ok(w),
                    None => Err(ErrorModel::NotFound(key)),
                },
                Err(_) => Err(ErrorModel::NotFound(key)),
            }
        }),
{
    keypath::law_identifier_path(a);
    keypath::law_subscript_path(a, i);
    let one = seq![Step::Key(a)];
    let two = seq![Step::Key(a), Step::Index(i as int)];
    let last = seq![Step::Index(i as int)];
    assert(one.drop_first() =~= Seq::<Step>::empty());
    assert(two.drop_first() =~= last);
    assert(last.drop_first() =~= Seq::<Step>::empty());
    let root = cfg.root.model();
    match step_get(root, Step::Key(a)) {
        Some(w) => {
            assert(path_get(w, Seq::<Step>::empty()) == Some(w));
            assert(path_get(root, one) == Some(w));
            match step_get(w, Step::Index(i as int)) {
                Some(x) => {
                    assert(path_get(x, Seq::<Step>::empty()) == Some(x));
                    assert(path_get(w, last) == Some(x));
                    assert(path_get(root, two) == Some(x));
                },
                None => {
                    assert(path_get(w, last) is None);
                    assert(path_get(root, two) is None);
                },
            }
        },
        None => {
            assert(path_get(root, one) is None);
            assert(path_get(root, two) is None);
        },
    }
}

/// The truth words, in any letter case: `1`, `true`, `on`, `yes` read as
/// true and `0`, `false`, `off`, `no` as false; read as integers, `true`,
/// `on`, `yes` give 1 and `false`, `off`, `no` give 0.
pub proof fn law_truth_words(w: Seq<char>)
    requires
        text::is_ascii_text(w),
    ensures
        (text::ascii_lower(w) == "1"@ || text::ascii_lower(w) == "true"@ || text::ascii_lower(w)
            == "on"@ || text::ascii_lower(w) == "yes"@) ==> bool_of(Setting::Text(w)) == Ok::<
            bool,
            ErrorModel,
        >(true),
        (text::ascii_lower(w) == "0"@ || text::ascii_lower(w) == "false"@ || text::ascii_lower(w)
            == "off"@ || text::ascii_lower(w) == "no"@) ==> bool_of(Setting::Text(w)) == Ok::<
            bool,
            ErrorModel,
        >(false),
        (text::ascii_lower(w) == "true"@ || text::ascii_lower(w) == "on"@ || text::ascii_lower(w)
            == "yes"@) ==> int_of(Setting::Text(w)) == Ok::<i64, ErrorModel>(1),
        (text::ascii_lower(w) == "false"@ || text::ascii_lower(w) == "off"@ || text::ascii_lower(w)
            == "no"@) ==> int_of(Setting::Text(w)) == Ok::<i64, ErrorModel>(0),
{
    reveal_strlit("1");
    reveal_strlit("true");
    reveal_strlit("on");
    reveal_strlit("yes");
    reveal_strlit("0");
    reveal_strlit("false");
    reveal_strlit("off");
    reveal_strlit("no");
    assert(text::lower_text(w) == text::ascii_lower(w));
    let l = text::ascii_lower(w);
    if l == "0"@ || l == "false"@ || l == "off"@ || l == "no"@ {
        assert(l.len() == 1 ==> l[0] == '0');
        assert(l.len() == 2 ==> l[0] == 'n');
        assert(l.len() == 3 ==> l[0] == 'o');
        assert(l.len() == 5 ==> l[0] == 'f');
        assert(l != "1"@ && l != "true"@ && l != "on"@ && l != "yes"@);
        assert(truth_word(text::lower_text(w)) == Some(false));
        assert(l != "true"@ && l != "on"@ && l != "yes"@);
        if l != "0"@ {
            assert(number_word(text::lower_text(w)) == Some(0i64));
        }
    }
}

/// An integer setting read as text reads back, as an integer, as itself.
pub proof fn law_integer_text_round_trip(i: i64)
    ensures
        str_of(Setting::Integer(i)) == Ok::<Seq<char>, ErrorModel>(text::decimal(i as int)),
        int_of(Setting::Text(text::decimal(i as int))) == Ok::<i64, ErrorModel>(i),
{
    let s = text::decimal(i as int);
    text::law_decimal_parses_back(i);
    assert(text::ascii_lower(s) =~= s) by {
        assert forall|j: int| 0 <= j < s.len() implies !('A' <= #[trigger] s[j] && s[j] <= 'Z') by {
            if i < 0 {
                if j > 0 {
                    text::lemma_decimal_digits((-(i as int)) as nat);
                    assert(s[j] == text::decimal_digits((-(i as int)) as nat)[j - 1]);
                }
            } else {
                text::lemma_decimal_digits(i as nat);
            }
        }
    }
    assert(text::lower_text(s) == s);
    reveal_strlit("true");
    reveal_strlit("on");
    reveal_strlit("yes");
    reveal_strlit("false");
    reveal_strlit("off");
    reveal_strlit("no");
    assert(s.len() > 0);
    if i < 0 {
        assert(s[0] == '-');
    } else {
        text::lemma_decimal_digits(i as nat);
        assert(text::is_digit(s[0]));
    }
    assert(number_word(s) is None);
}

/// A truth-valued setting read as text reads back, as a truth value, as itself.
pub proof fn law_boolean_text_round_trip(b: bool)
    ensures
        bool_of(Setting::Text(str_of(Setting::Boolean(b))->Ok_0)) == Ok::<bool, ErrorModel>(b),
{
    reveal_strlit("true");
    reveal_strlit("false");
    reveal_strlit("1");
    reveal_strlit("on");
    reveal_strlit("yes");
    let s: Seq<char> = if b {
        "true"@
    } else {
        "false"@
    };
    assert(text::is_ascii_text(s));
    assert(text::ascii_lower(s) =~= s);
    assert(text::lower_text(s) == s);
}

/// A truth-valued setting read as an integer reads back, as a truth value, as itself.
pub proof fn law_boolean_integer_round_trip(b: bool)
    ensures
        bool_of(Setting::Integer(int_of(Setting::Boolean(b))->Ok_0)) == Ok::<bool, ErrorModel>(b),
{
}

} // verus!
