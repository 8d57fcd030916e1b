//! Path keys into the settings tree: an identifier followed by any number of
//! `.child` and `[index]` parts, as in `etcd.bind[0]`.
//!
//! Identifiers are made of ASCII letters, digits, spaces, `_` and `-`; an index
//! is a signed decimal integer, with spaces or tabs allowed around it inside
//! the brackets; a negative index counts from the end of the array.

use vstd::prelude::*;
use crate::text::{self, chars_of, digits_value_capped, string_of};

verus! {

/// One step of a path, mathematically.
pub enum Step {
    Key(Seq<char>),
    Index(int),
}

/// One step of a parsed path.
pub enum PathStep {
    Key(String),
    Index(i64),
}

impl PathStep {
    pub open spec fn model(self) -> Step {
        match self {
            PathStep::Key(k) => Step::Key(k@),
            PathStep::Index(i) => Step::Index(i as int),
        }
    }
}

pub open spec fn steps_model(s: Seq<PathStep>) -> Seq<Step> {
    s.map_values(|p: PathStep| p.model())
}

/// The classes of characters that a path is made of.
pub enum CharClass {
    Ident,
    Digit,
    Blank,
}

pub open spec fn is_ident_char(c: char) -> bool {
    ('a' <= c && c <= 'z') || ('A' <= c && c <= 'Z') || ('0' <= c && c <= '9') || c == ' ' || c
        == '_' || c == '-'
}

pub open spec fn is_blank(c: char) -> bool {
    c == ' ' || c == '\t'
}

pub open spec fn in_class(c: char, k: CharClass) -> bool {
    match k {
        CharClass::Ident => is_ident_char(c),
        CharClass::Digit => text::is_digit(c),
        CharClass::Blank => is_blank(c),
    }
}

/// The end of the longest run of characters of class `k` that starts at `i`.
pub open spec fn span(s: Seq<char>, i: int, k: CharClass) -> int
    decreases s.len() - i,
{
    if 0 <= i < s.len() && in_class(s[i], k) {
        span(s, i + 1, k)
    } else {
        i
    }
}

pub proof fn lemma_span(s: Seq<char>, i: int, k: CharClass)
    requires
        0 <= i,
    ensures
        i <= span(s, i, k),
        i <= s.len() ==> span(s, i, k) <= s.len(),
        forall|j: int| i <= j < span(s, i, k) ==> in_class(#[trigger] s[j], k),
        span(s, i, k) < s.len() ==> !in_class(s[span(s, i, k)], k),
    decreases s.len() - i,
{
    if 0 <= i < s.len() && in_class(s[i], k) {
        lemma_span(s, i + 1, k);
    }
}

/// The value of the signed integer written in `s[b..c]`, negative when a
/// minus sign stands just before `b` (at `a`).
pub open spec fn index_value(s: Seq<char>, a: int, b: int, c: int) -> int {
    if b > a {
        -text::digits_value(s.subrange(b, c))
    } else {
        text::digits_value(s.subrange(b, c))
    }
}

/// The steps that the characters from `i` on stand for: a sequence of
/// `.child` and `[index]` parts, or `None` where they stand for none.
pub open spec fn parse_steps(s: Seq<char>, i: int) -> Option<Seq<Step>>
    decreases s.len() - i,
{
    if i < 0 || i >= s.len() {
        Some(seq![])
    } else if s[i] == '.' {
        let e: int = span(s, i + 1, CharClass::Ident);
        proof {
            lemma_span(s, i + 1, CharClass::Ident);
        }
        if e <= i + 1 {
            None
        } else {
            match parse_steps(s, e) {
                Some(rest) => Some(seq![Step::Key(s.subrange(i + 1, e))] + rest),
                None => None,
            }
        }
    } else if s[i] == '[' {
        let a: int = span(s, i + 1, CharClass::Blank);
        let b: int = if a < s.len() && s[a] == '-' {
            a + 1
        } else {
            a
        };
        let c: int = span(s, b, CharClass::Digit);
        let d: int = span(s, c, CharClass::Blank);
        let v: int = index_value(s, a, b, c);
        proof {
            lemma_span(s, i + 1, CharClass::Blank);
            lemma_span(s, b, CharClass::Digit);
            lemma_span(s, c, CharClass::Blank);
        }
        if c <= b || v < i64::MIN || v > i64::MAX || !(d < s.len() && s[d] == ']') {
            None
        } else {
            match parse_steps(s, d + 1) {
                Some(rest) => Some(seq![Step::Index(v)] + rest),
                None => None,
            }
        }
    } else {
        None
    }
}

/// The steps that a path key stands for, or `None` where it is no path.
pub open spec fn parse_path(s: Seq<char>) -> Option<Seq<Step>> {
    let e: int = span(s, 0, CharClass::Ident);
    if e <= 0 {
        None
    } else {
        match parse_steps(s, e) {
            Some(rest) => Some(seq![Step::Key(s.subrange(0, e))] + rest),
            None => None,
        }
    }
}

/// A run of characters of class `k` that reaches the end ends there.
pub proof fn lemma_span_to_end(s: Seq<char>, i: int, k: CharClass)
    requires
        0 <= i <= s.len(),
        forall|j: int| i <= j < s.len() ==> in_class(#[trigger] s[j], k),
    ensures
        span(s, i, k) == s.len(),
    decreases s.len() - i,
{
    if i < s.len() {
        lemma_span_to_end(s, i + 1, k);
    }
}

/// Text made of identifier characters only, at least one.
pub open spec fn is_identifier(s: Seq<char>) -> bool {
    s.len() > 0 && forall|j: int| 0 <= j < s.len() ==> is_ident_char(#[trigger] s[j])
}

/// An identifier is a path of one key: itself.
pub proof fn law_identifier_path(a: Seq<char>)
    requires
        is_identifier(a),
    ensures
        parse_path(a) == Some(seq![Step::Key(a)]),
{
    lemma_span_to_end(a, 0, CharClass::Ident);
    assert(a.subrange(0, a.len() as int) =~= a);
    assert(seq![Step::Key(a)] + seq![] =~= seq![Step::Key(a)]);
}

/// Two identifiers joined by a dot are a path of two keys: the first, then
/// the second.
pub proof fn law_dotted_path(a: Seq<char>, b: Seq<char>)
    requires
        is_identifier(a),
        is_identifier(b),
    ensures
        parse_path(a + seq!['.'] + b) == Some(seq![Step::Key(a), Step::Key(b)]),
{
    let s = a + seq!['.'] + b;
    let n: int = a.len() as int;
    assert forall|j: int| 0 <= j < n implies in_class(#[trigger] s[j], CharClass::Ident) by {
        assert(s[j] == a[j]);
    }
    lemma_span_to_end(s.subrange(0, n), 0, CharClass::Ident);
    lemma_span_prefix(s, 0, n, CharClass::Ident);
    assert(span(s, 0, CharClass::Ident) == n);
    assert forall|j: int| n + 1 <= j < s.len() implies in_class(#[trigger] s[j], CharClass::Ident) by {
        assert(s[j] == b[j - n - 1]);
    }
    lemma_span_to_end(s, n + 1, CharClass::Ident);
    assert(s.subrange(0, n) =~= a);
    assert(s.subrange(n + 1, s.len() as int) =~= b);
    assert(parse_steps(s, s.len() as int) == Some(Seq::<Step>::empty()));
    assert(parse_steps(s, n) == Some(seq![Step::Key(b)] + Seq::<Step>::empty()));
    assert(seq![Step::Key(a)] + (seq![Step::Key(b)] + Seq::<Step>::empty()) =~= seq![
        Step::Key(a),
        Step::Key(b),
    ]);
}

/// A run of characters of class `k` from `i` up to `n`, followed by the end
/// of the text or by a character outside the class, ends at `n`.
pub proof fn lemma_span_exact(s: Seq<char>, i: int, n: int, k: CharClass)
    requires
        0 <= i <= n <= s.len(),
        forall|j: int| i <= j < n ==> in_class(#[trigger] s[j], k),
        n < s.len() ==> !in_class(s[n], k),
    ensures
        span(s, i, k) == n,
    decreases n - i,
{
    if i < n {
        lemma_span_exact(s, i + 1, n, k);
    }
}

/// An identifier followed by a decimal index in brackets is a path of two
/// steps: the key, then the index.
pub proof fn law_subscript_path(a: Seq<char>, i: i64)
    requires
        is_identifier(a),
    ensures
        parse_path(a + seq!['['] + text::decimal(i as int) + seq![']']) == Some(
            seq![Step::Key(a), Step::Index(i as int)],
        ),
{
    let d = text::decimal(i as int);
    let s = a + seq!['['] + d + seq![']'];
    let n: int = a.len() as int;
    let mag: nat = if i < 0 {
        (-(i as int)) as nat
    } else {
        i as nat
    };
    text::lemma_decimal_digits(mag);
    let digits = text::decimal_digits(mag);
    let b: int = if i < 0 {
        n + 2
    } else {
        n + 1
    };
    assert(s.len() == n + 1 + d.len() + 1);
    assert forall|j: int| 0 <= j < n implies in_class(#[trigger] s[j], CharClass::Ident) by {
        assert(s[j] == a[j]);
    }
    lemma_span_exact(s, 0, n, CharClass::Ident);
    assert(s.subrange(0, n) =~= a);
    if i < 0 {
        assert(d =~= seq!['-'] + digits);
        assert(s[n + 1] == '-');
    } else {
        assert(d =~= digits);
        assert(s[n + 1] == digits[0]);
        assert(text::is_digit(digits[0]));
    }
    lemma_span_exact(s, n + 1, n + 1, CharClass::Blank);
    let c: int = s.len() - 1;
    assert(s.subrange(b, c) =~= digits);
    assert forall|j: int| b <= j < c implies in_class(#[trigger] s[j], CharClass::Digit) by {
        assert(s[j] == digits[j - b]);
    }
    assert(s[c] == ']');
    lemma_span_exact(s, b, c, CharClass::Digit);
    lemma_span_exact(s, c, c, CharClass::Blank);
    assert(index_value(s, n + 1, b, c) == i as int);
    assert(parse_steps(s, c + 1) == Some(Seq::<Step>::empty()));
    assert(parse_steps(s, n) == Some(seq![Step::Index(i as int)] + Seq::<Step>::empty()));
    assert(seq![Step::Key(a)] + (seq![Step::Index(i as int)] + Seq::<Step>::empty()) =~= seq![
        Step::Key(a),
        Step::Index(i as int),
    ]);
}

/// A run that ends, inside `s`, before a character outside the class ends
/// where it does in the prefix of `s` up to that character.
proof fn lemma_span_prefix(s: Seq<char>, i: int, n: int, k: CharClass)
    requires
        0 <= i <= n < s.len(),
        !in_class(s[n], k),
        span(s.subrange(0, n), i, k) == n,
    ensures
        span(s, i, k) == n,
    decreases n - i,
{
    if i < n {
        assert(s.subrange(0, n)[i] == s[i]);
        lemma_span_prefix(s, i + 1, n, k);
    }
}

fn in_class_exec(c: char, k: &CharClass) -> (r: bool)
    ensures
        r == in_class(c, *k),
{
    match k {
        CharClass::Ident => ('a' <= c && c <= 'z') || ('A' <= c && c <= 'Z') || ('0' <= c && c
            <= '9') || c == ' ' || c == '_' || c == '-',
        CharClass::Digit => '0' <= c && c <= '9',
        CharClass::Blank => c == ' ' || c == '\t',
    }
}

fn span_end(s: &Vec<char>, i: usize, k: CharClass) -> (r: usize)
    requires
        i <= s@.len(),
    ensures
        r == span(s@, i as int, k),
        i <= r <= s@.len(),
{
    proof {
        lemma_span(s@, i as int, k);
    }
    let mut j: usize = i;
    while j < s.len() && in_class_exec(s[j], &k)
        invariant
            i <= j <= s@.len(),
            span(s@, i as int, k) == span(s@, j as int, k),
        decreases s@.len() - j,
    {
        j = j + 1;
    }
    j
}

/// Parses a path key into its steps; `None` where the key is no path.
pub fn parse_key(key: &str) -> (r: Option<Vec<PathStep>>)
    ensures
        match parse_path(key@) {
            Some(p) => (r matches Some(v) && steps_model(v@) == p),
            None => r is None,
        },
{
    let s = chars_of(key);
    let e: usize = span_end(&s, 0, CharClass::Ident);
    if e == 0 {
        return None;
    }
    let mut steps: Vec<PathStep> = Vec::new();
    steps.push(PathStep::Key(string_of(&s, 0, e)));
    assert(steps_model(steps@) =~= seq![Step::Key(s@.subrange(0, e as int))]);
    let mut i: usize = e;
    while i < s.len()
        invariant
            i <= s@.len(),
            s@ == key@,
            parse_path(s@) == match parse_steps(s@, i as int) {
                Some(rest) => Some(steps_model(steps@) + rest),
                None => None::<Seq<Step>>,
            },
        decreases s@.len() - i,
    {
        let ghost old_steps = steps_model(steps@);
        if s[i] == '.' {
            let f: usize = span_end(&s, i + 1, CharClass::Ident);
            if f <= i + 1 {
                return None;
            }
            steps.push(PathStep::Key(string_of(&s, i + 1, f)));
            assert(steps_model(steps@) =~= old_steps + seq![Step::Key(s@.subrange(i + 1, f as int))]);
            proof {
                match parse_steps(s@, f as int) {
                    Some(rest) => {
                        assert(old_steps + (seq![Step::Key(s@.subrange(i + 1, f as int))] + rest)
                            =~= steps_model(steps@) + rest);
                    },
                    None => {},
                }
            }
            i = f;
        } else if s[i] == '[' {
            let a: usize = span_end(&s, i + 1, CharClass::Blank);
            let b: usize = if a < s.len() && s[a] == '-' {
                a + 1
            } else {
                a
            };
            let c: usize = span_end(&s, b, CharClass::Digit);
            let d: usize = span_end(&s, c, CharClass::Blank);
            if c <= b {
                return None;
            }
            proof {
                lemma_span(s@, b as int, CharClass::Digit);
            }
            let m: i128 = digits_value_capped(&s, b, c);
            let v: i64;
            if b > a {
                if m > 0x8000_0000_0000_0000 {
                    return None;
                }
                v = (-m) as i64;
            } else {
                if m > 0x7fff_ffff_ffff_ffff {
                    return None;
                }
                v = m as i64;
            }
            if !(d < s.len() && s[d] == ']') {
                return None;
            }
            assert(v as int == index_value(s@, a as int, b as int, c as int));
            steps.push(PathStep::Index(v));
            assert(steps_model(steps@) =~= old_steps + seq![Step::Index(v as int)]);
            proof {
                match parse_steps(s@, d + 1) {
                    Some(rest) => {
                        assert(old_steps + (seq![Step::Index(v as int)] + rest) =~= steps_model(
                            steps@,
                        ) + rest);
                    },
                    None => {},
                }
            }
            i = d + 1;
        } else {
            return None;
        }
    }
    assert(steps_model(steps@) + seq![] =~= steps_model(steps@));
    Some(steps)
}

} // verus!
