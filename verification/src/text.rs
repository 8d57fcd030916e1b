//! Byte and character helpers shared by the request and configuration logic.

use vstd::prelude::*;

verus! {

/// Appends one character to a `String` (`String::push`).
/// Trusted: the new contents are the old contents followed by `c`.
#[verifier::external_body]
pub(crate) fn push_char(s: &mut String, c: char)
    ensures
        final(s)@ == old(s)@.push(c),
{
    s.push(c);
}

/// Whether `s` begins with `prefix`, byte for byte.
pub open spec fn starts_with<T>(s: Seq<T>, prefix: Seq<T>) -> bool {
    prefix.len() <= s.len() && s.subrange(0, prefix.len() as int) == prefix
}

/// Byte-wise prefix test, as `str::starts_with` does on a string pattern.
pub fn bytes_start_with(s: &[u8], prefix: &[u8]) -> (r: bool)
    ensures
        r == starts_with(s@, prefix@),
{
    if prefix.len() > s.len() {
        return false;
    }
    let mut i: usize = 0;
    while i < prefix.len()
        invariant
            prefix.len() <= s.len(),
            i <= prefix.len(),
            forall|j: int| 0 <= j < i ==> s@[j] == prefix@[j],
        decreases prefix.len() - i,
    {
        if s[i] != prefix[i] {
            assert(s@.subrange(0, prefix@.len() as int)[i as int] != prefix@[i as int]);
            return false;
        }
        i = i + 1;
    }
    assert(s@.subrange(0, prefix@.len() as int) =~= prefix@);
    true
}

/// Whitespace bytes as `char::is_whitespace` sees them in ASCII text:
/// tab, line feed, vertical tab, form feed, carriage return and space.
pub open spec fn is_whitespace_byte(b: u8) -> bool {
    (9 <= b && b <= 13) || b == 32
}

/// `s` without its leading whitespace bytes.
pub open spec fn trim_front(s: Seq<u8>) -> Seq<u8>
    decreases s.len(),
{
    if s.len() > 0 && is_whitespace_byte(s[0]) {
        trim_front(s.drop_first())
    } else {
        s
    }
}

/// `s` without its trailing whitespace bytes.
pub open spec fn trim_back(s: Seq<u8>) -> Seq<u8>
    decreases s.len(),
{
    if s.len() > 0 && is_whitespace_byte(s.last()) {
        trim_back(s.drop_last())
    } else {
        s
    }
}

/// Trimming the front drops exactly the leading whitespace bytes: the result
/// is the text from the first byte that is not whitespace on.
pub proof fn lemma_trim_front(s: Seq<u8>) -> (a: int)
    ensures
        0 <= a <= s.len(),
        trim_front(s) == s.subrange(a, s.len() as int),
        forall|j: int| 0 <= j < a ==> is_whitespace_byte(#[trigger] s[j]),
        a < s.len() ==> !is_whitespace_byte(s[a]),
    decreases s.len(),
{
    if s.len() > 0 && is_whitespace_byte(s[0]) {
        let t = s.drop_first();
        let a0 = lemma_trim_front(t);
        assert(t.subrange(a0, t.len() as int) =~= s.subrange(a0 + 1, s.len() as int));
        assert forall|j: int| 0 <= j < a0 + 1 implies is_whitespace_byte(#[trigger] s[j]) by {
            if j > 0 {
                assert(s[j] == t[j - 1]);
            }
        }
        if a0 + 1 < s.len() {
            assert(s[a0 + 1] == t[a0]);
        }
        a0 + 1
    } else {
        assert(s.subrange(0, s.len() as int) =~= s);
        0
    }
}

/// Trimming the back drops exactly the trailing whitespace bytes: the result
/// is the text up to the last byte that is not whitespace.
pub proof fn lemma_trim_back(s: Seq<u8>) -> (b: int)
    ensures
        0 <= b <= s.len(),
        trim_back(s) == s.subrange(0, b),
        forall|j: int| b <= j < s.len() ==> is_whitespace_byte(#[trigger] s[j]),
        b > 0 ==> !is_whitespace_byte(s[b - 1]),
    decreases s.len(),
{
    if s.len() > 0 && is_whitespace_byte(s.last()) {
        let t = s.drop_last();
        let b0 = lemma_trim_back(t);
        assert(t.subrange(0, b0) =~= s.subrange(0, b0));
        assert forall|j: int| b0 <= j < s.len() implies is_whitespace_byte(#[trigger] s[j]) by {
            if j < s.len() - 1 {
                assert(s[j] == t[j]);
            }
        }
        if b0 > 0 {
            assert(s[b0 - 1] == t[b0 - 1]);
        }
        b0
    } else {
        assert(s.subrange(0, s.len() as int) =~= s);
        s.len() as int
    }
}

/// `str::trim` on ASCII text: whitespace removed from both ends.
pub open spec fn trim(s: Seq<u8>) -> Seq<u8> {
    trim_back(trim_front(s))
}

/// The characters that ASCII bytes stand for.
pub open spec fn ascii_text(s: Seq<u8>) -> Seq<char> {
    s.map_values(|b: u8| b as char)
}

/// The bounds `(lo, hi)` of `trim(s[from..])` inside `s`.
pub fn trim_bounds(s: &[u8], from: usize) -> (r: (usize, usize))
    requires
        from <= s@.len(),
    ensures
        from <= r.0 <= r.1 <= s@.len(),
        s@.subrange(r.0 as int, r.1 as int) == trim(s@.subrange(from as int, s@.len() as int)),
{
    let mut lo: usize = from;
    while lo < s.len() && (9 <= s[lo] && s[lo] <= 13 || s[lo] == 32)
        invariant
            from <= lo <= s@.len(),
            trim_front(s@.subrange(from as int, s@.len() as int)) == trim_front(
                s@.subrange(lo as int, s@.len() as int),
            ),
        decreases s@.len() - lo,
    {
        assert(s@.subrange(lo as int, s@.len() as int).drop_first() =~= s@.subrange(
            lo + 1,
            s@.len() as int,
        ));
        lo = lo + 1;
    }
    let ghost front = s@.subrange(lo as int, s@.len() as int);
    assert(trim_front(front) == front);
    let mut hi: usize = s.len();
    while hi > lo && (9 <= s[hi - 1] && s[hi - 1] <= 13 || s[hi - 1] == 32)
        invariant
            lo <= hi <= s@.len(),
            front == s@.subrange(lo as int, s@.len() as int),
            trim_back(front) == trim_back(s@.subrange(lo as int, hi as int)),
        decreases hi - lo,
    {
        assert(s@.subrange(lo as int, hi as int).drop_last() =~= s@.subrange(
            lo as int,
            hi - 1,
        ));
        hi = hi - 1;
    }
    (lo, hi)
}

/// A `String` holding the characters that the bytes `s[lo..hi]` stand for.
pub fn ascii_string(s: &[u8], lo: usize, hi: usize) -> (r: String)
    requires
        lo <= hi <= s@.len(),
    ensures
        r@ == ascii_text(s@.subrange(lo as int, hi as int)),
{
    let mut r = String::new();
    let mut i: usize = lo;
    while i < hi
        invariant
            lo <= i <= hi <= s@.len(),
            r@ == ascii_text(s@.subrange(lo as int, i as int)),
        decreases hi - i,
    {
        let c = s[i] as char;
        push_char(&mut r, c);
        assert(ascii_text(s@.subrange(lo as int, i + 1)) =~= ascii_text(
            s@.subrange(lo as int, i as int),
        ).push(c));
        i = i + 1;
    }
    r
}

/// The characters of `s`, in order.
pub fn chars_of(s: &str) -> (r: Vec<char>)
    ensures
        r@ == s@,
{
    broadcast use vstd::string::group_string_axioms;
    let mut r: Vec<char> = Vec::new();
    for c in iter: s.chars()
        invariant
            r@ == iter.seq().take(iter.index() as int),
    {
        r.push(c);
    }
    r
}

/// A `String` holding the characters `s[lo..hi]`.
pub fn string_of(s: &Vec<char>, lo: usize, hi: usize) -> (r: String)
    requires
        lo <= hi <= s@.len(),
    ensures
        r@ == s@.subrange(lo as int, hi as int),
{
    let mut r = String::new();
    let mut i: usize = lo;
    while i < hi
        invariant
            lo <= i <= hi <= s@.len(),
            r@ == s@.subrange(lo as int, i as int),
        decreases hi - i,
    {
        push_char(&mut r, s[i]);
        assert(s@.subrange(lo as int, i + 1) =~= s@.subrange(lo as int, i as int).push(s@[i as int]));
        i = i + 1;
    }
    r
}

/// An ASCII decimal digit.
pub open spec fn is_digit(c: char) -> bool {
    '0' <= c && c <= '9'
}

/// The value of a decimal digit.
pub open spec fn digit_value(c: char) -> int {
    c as int - '0' as int
}

/// The value of a string of decimal digits, most significant first.
pub open spec fn digits_value(d: Seq<char>) -> int
    decreases d.len(),
{
    if d.len() == 0 {
        0
    } else {
        digits_value(d.drop_last()) * 10 + digit_value(d.last())
    }
}

/// The largest magnitude that a signed 64-bit integer reaches.
pub open spec fn magnitude_bound() -> int {
    0x8000_0000_0000_0000
}

/// The value of the digits `s[lo..hi]`, or one more than the bound where
/// the value exceeds it.
pub fn digits_value_capped(s: &Vec<char>, lo: usize, hi: usize) -> (r: i128)
    requires
        lo <= hi <= s@.len(),
        forall|j: int| lo <= j < hi ==> is_digit(#[trigger] s@[j]),
    ensures
        r == if digits_value(s@.subrange(lo as int, hi as int)) > magnitude_bound() {
            magnitude_bound() + 1
        } else {
            digits_value(s@.subrange(lo as int, hi as int))
        },
        digits_value(s@.subrange(lo as int, hi as int)) >= 0,
{
    let mut acc: i128 = 0;
    let mut i: usize = lo;
    while i < hi
        invariant
            lo <= i <= hi <= s@.len(),
            forall|j: int| lo <= j < hi ==> is_digit(#[trigger] s@[j]),
            digits_value(s@.subrange(lo as int, i as int)) >= 0,
            acc == if digits_value(s@.subrange(lo as int, i as int)) > magnitude_bound() {
                magnitude_bound() + 1
            } else {
                digits_value(s@.subrange(lo as int, i as int))
            },
        decreases hi - i,
    {
        let c = s[i];
        let d: i128 = (c as u32 - '0' as u32) as i128;
        assert(s@.subrange(lo as int, i + 1).drop_last() =~= s@.subrange(lo as int, i as int));
        assert(d == digit_value(s@[i as int]));
        acc = acc * 10 + d;
        if acc > 0x8000_0000_0000_0000 {
            acc = 0x8000_0000_0000_0001;
        }
        i = i + 1;
    }
    acc
}

/// Whether two strings hold the same characters.
pub fn same_text(a: &str, b: &str) -> (r: bool)
    ensures
        r == (a@ == b@),
{
    let x = chars_of(a);
    let y = chars_of(b);
    if x.len() != y.len() {
        return false;
    }
    let mut i: usize = 0;
    while i < x.len()
        invariant
            x@ == a@,
            y@ == b@,
            x@.len() == y@.len(),
            i <= x@.len(),
            forall|j: int| 0 <= j < i ==> x@[j] == y@[j],
        decreases x@.len() - i,
    {
        if x[i] != y[i] {
            return false;
        }
        i = i + 1;
    }
    assert(x@ =~= y@);
    true
}

/// What `str::to_lowercase` makes of a string (Unicode lower-casing).
pub uninterp spec fn lowercase(s: Seq<char>) -> Seq<char>;

/// Every character is ASCII.
pub open spec fn is_ascii_text(s: Seq<char>) -> bool {
    forall|i: int| 0 <= i < s.len() ==> ((#[trigger] s[i]) as u32) < 128
}

/// ASCII text with its capital letters made small.
pub open spec fn ascii_lower(s: Seq<char>) -> Seq<char> {
    s.map_values(
        |c: char|
            if 'A' <= c && c <= 'Z' {
                ((c as u32) + 32) as char
            } else {
                c
            },
    )
}

/// Lower-cased text: ASCII text with its capital letters made small, other
/// text as `str::to_lowercase` makes it.
pub open spec fn lower_text(s: Seq<char>) -> Seq<char> {
    if is_ascii_text(s) {
        ascii_lower(s)
    } else {
        lowercase(s)
    }
}

/// `str::to_lowercase`. Trusted: the result is the lower-cased text, a
/// function of the input text alone; on ASCII text it makes the capital
/// letters small and keeps every other character.
#[verifier::external_body]
pub(crate) fn to_lowercase(s: &str) -> (r: String)
    ensures
        r@ == lowercase(s@),
        is_ascii_text(s@) ==> r@ == ascii_lower(s@),
{
    s.to_lowercase()
}

/// All characters are decimal digits.
pub open spec fn all_digits(s: Seq<char>) -> bool {
    forall|i: int| 0 <= i < s.len() ==> is_digit(#[trigger] s[i])
}

/// `i64`'s `FromStr`: an optional `+` or `-` sign, then one or more decimal
/// digits whose value fits in an `i64`.
pub open spec fn parse_i64(s: Seq<char>) -> Option<i64> {
    let signed = s.len() > 0 && (s[0] == '-' || s[0] == '+');
    let body = if signed {
        s.drop_first()
    } else {
        s
    };
    let v = if signed && s[0] == '-' {
        -digits_value(body)
    } else {
        digits_value(body)
    };
    if body.len() == 0 || !all_digits(body) || v < i64::MIN || v > i64::MAX {
        None
    } else {
        Some(v as i64)
    }
}

/// Whether `c[lo..hi]` are all decimal digits.
fn digits_between(c: &Vec<char>, lo: usize, hi: usize) -> (r: bool)
    requires
        lo <= hi <= c@.len(),
    ensures
        r == forall|j: int| lo <= j < hi ==> is_digit(#[trigger] c@[j]),
{
    let mut i: usize = lo;
    while i < hi
        invariant
            lo <= i <= hi <= c@.len(),
            forall|j: int| lo <= j < i ==> is_digit(#[trigger] c@[j]),
        decreases hi - i,
    {
        if !('0' <= c[i] && c[i] <= '9') {
            return false;
        }
        i = i + 1;
    }
    true
}

/// Parses a decimal `i64` as `str::parse::<i64>` does.
pub fn parse_int(s: &str) -> (r: Option<i64>)
    ensures
        r == parse_i64(s@),
{
    let c = chars_of(s);
    let signed = c.len() > 0 && (c[0] == '-' || c[0] == '+');
    let start: usize = if signed {
        1
    } else {
        0
    };
    let ghost body = c@.subrange(start as int, c@.len() as int);
    assert(signed ==> body =~= c@.drop_first());
    assert(!signed ==> body =~= c@);
    if start >= c.len() {
        return None;
    }
    if !digits_between(&c, start, c.len()) {
        assert(!all_digits(body)) by {
            let j = choose|j: int| start <= j < c@.len() && !is_digit(#[trigger] c@[j]);
            assert(body[j - start] == c@[j]);
        }
        return None;
    }
    assert(all_digits(body)) by {
        assert forall|j: int| 0 <= j < body.len() implies is_digit(#[trigger] body[j]) by {
            assert(body[j] == c@[j + start]);
        }
    }
    let m: i128 = digits_value_capped(&c, start, c.len());
    if signed && c[0] == '-' {
        if m > 0x8000_0000_0000_0000 {
            None
        } else {
            Some((-m) as i64)
        }
    } else {
        if m > 0x7fff_ffff_ffff_ffff {
            None
        } else {
            Some(m as i64)
        }
    }
}

/// The character of a decimal digit.
pub open spec fn digit_char(d: int) -> char {
    ('0' as int + d) as char
}

/// The decimal digits of `n`, most significant first.
pub open spec fn decimal_digits(n: nat) -> Seq<char>
    decreases n,
{
    if n < 10 {
        seq![digit_char(n as int)]
    } else {
        decimal_digits(n / 10).push(digit_char((n % 10) as int))
    }
}

/// The decimal text of an integer, as `Display` writes it.
pub open spec fn decimal(i: int) -> Seq<char> {
    if i < 0 {
        seq!['-'] + decimal_digits((-i) as nat)
    } else {
        decimal_digits(i as nat)
    }
}

/// The decimal text of `i` (`i64::to_string`).
pub fn format_int(i: i64) -> (r: String)
    ensures
        r@ == decimal(i as int),
{
    let neg = i < 0;
    let m: u64 = if neg {
        (-(i as i128)) as u64
    } else {
        i as u64
    };
    let ghost n: nat = m as nat;
    let mut q: u64 = m;
    let mut rev: Vec<char> = Vec::new();
    while q >= 10
        invariant
            decimal_digits(n) == decimal_digits(q as nat) + rev@.reverse(),
        decreases q,
    {
        let c = ((48 + q % 10) as u8) as char;
        let ghost old_rev = rev@;
        assert(c == digit_char((q % 10) as int));
        rev.push(c);
        assert(rev@.reverse() =~= seq![c] + old_rev.reverse());
        assert(decimal_digits(q as nat) == decimal_digits((q / 10) as nat).push(c));
        assert(decimal_digits((q / 10) as nat).push(c) + old_rev.reverse() =~= decimal_digits(
            (q / 10) as nat,
        ) + rev@.reverse());
        q = q / 10;
    }
    let last = ((48 + q) as u8) as char;
    assert(last == digit_char(q as int));
    let mut r = String::new();
    if neg {
        push_char(&mut r, '-');
    }
    push_char(&mut r, last);
    let ghost head = r@;
    let mut j: usize = rev.len();
    while j > 0
        invariant
            j <= rev@.len(),
            r@ == head + rev@.reverse().subrange(0, (rev@.len() - j) as int),
        decreases j,
    {
        j = j - 1;
        let ghost before = r@;
        push_char(&mut r, rev[j]);
        assert(rev@.reverse()[(rev@.len() - j - 1) as int] == rev@[j as int]);
        assert(r@ =~= head + rev@.reverse().subrange(0, (rev@.len() - j) as int));
    }
    assert(rev@.reverse().subrange(0, rev@.len() as int) =~= rev@.reverse());
    assert(decimal_digits(q as nat) =~= seq![last]);
    if neg {
        assert(r@ =~= seq!['-'] + (seq![last] + rev@.reverse()));
    } else {
        assert(r@ =~= seq![last] + rev@.reverse());
    }
    r
}

proof fn lemma_digit_char(k: int)
    requires
        0 <= k < 10,
    ensures
        is_digit(digit_char(k)),
        digit_value(digit_char(k)) == k,
        (digit_char(k) as u32) < 128,
{
}

/// The decimal digits of a number are digits, at least one of them, and
/// stand for the number.
pub proof fn lemma_decimal_digits(n: nat)
    ensures
        decimal_digits(n).len() >= 1,
        all_digits(decimal_digits(n)),
        is_ascii_text(decimal_digits(n)),
        digits_value(decimal_digits(n)) == n,
    decreases n,
{
    if n < 10 {
        lemma_digit_char(n as int);
        let d = decimal_digits(n);
        assert(d.drop_last() =~= Seq::<char>::empty());
        assert(digits_value(d.drop_last()) == 0);
        assert(d.last() == digit_char(n as int));
        assert(digits_value(d) == digits_value(d.drop_last()) * 10 + digit_value(d.last()));
    } else {
        lemma_decimal_digits(n / 10);
        lemma_digit_char((n % 10) as int);
        let d = decimal_digits(n);
        assert(d.drop_last() =~= decimal_digits(n / 10));
        assert(d.last() == digit_char((n % 10) as int));
        assert((n / 10) * 10 + n % 10 == n) by (nonlinear_arith);
        assert(digits_value(d) == digits_value(d.drop_last()) * 10 + digit_value(d.last()));
    }
}

/// The decimal text of every `i64` parses back to it.
pub proof fn law_decimal_parses_back(i: i64)
    ensures
        parse_i64(decimal(i as int)) == Some(i),
        is_ascii_text(decimal(i as int)),
{
    if i < 0 {
        let n: nat = (-(i as int)) as nat;
        lemma_decimal_digits(n);
        let s = decimal(i as int);
        assert(s.drop_first() =~= decimal_digits(n));
        assert(s[0] == '-');
        assert(is_ascii_text(s)) by {
            assert forall|j: int| 0 <= j < s.len() implies ((#[trigger] s[j]) as u32) < 128 by {
                if j > 0 {
                    assert(s[j] == decimal_digits(n)[j - 1]);
                }
            }
        }
    } else {
        lemma_decimal_digits(i as nat);
        let s = decimal(i as int);
        assert(is_digit(s[0]));
    }
}

} // verus!
