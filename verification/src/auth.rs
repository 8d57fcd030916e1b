//! The authentication gate in front of every request.
//!
//! A request is screened first: preflight (`OPTIONS`) requests and requests
//! for public routes pass at once; any other request passes only when it
//! presents a bearer token whose claims decode and whose login session is
//! still valid. Decoding the token and looking the session up are done by
//! the caller between [`AuthenticationMiddleware::call`] and
//! [`AuthenticationMiddleware::conclude`].

use vstd::prelude::*;
use crate::text::{self, ascii_string, bytes_start_with, trim_bounds};
use crate::token::UserToken;

verus! {

/// The subject and domain under which a request is authorized.
pub struct AccessSubject {
    pub subject: String,
    pub domain: Option<String>,
}

/// The outcome of authentication.
pub enum Admission {
    Granted(AccessSubject),
    Denied,
}

/// The outcome of screening a request.
pub enum Screening {
    /// Authentication is decided without a token.
    Decided(Admission),
    /// The request presents this bearer token; its claims and session decide.
    Bearer(String),
}

/// What a screening decides, mathematically.
pub enum Verdict {
    /// Access is granted to the subject in the domain.
    Grant(Seq<char>, Option<Seq<char>>),
    /// The request presents this bearer token.
    Present(Seq<char>),
    /// Access is denied.
    Deny,
}

impl AccessSubject {
    pub open spec fn model(self) -> (Seq<char>, Option<Seq<char>>) {
        (
            self.subject@,
            match self.domain {
                Some(d) => Some(d@),
                None => None,
            },
        )
    }
}

impl Admission {
    /// The subject and domain granted, if any.
    pub open spec fn model(self) -> Option<(Seq<char>, Option<Seq<char>>)> {
        match self {
            Admission::Granted(a) => Some(a.model()),
            Admission::Denied => None,
        }
    }
}

impl Screening {
    pub open spec fn model(self) -> Verdict {
        match self {
            Screening::Decided(Admission::Granted(a)) => Verdict::Grant(a.model().0, a.model().1),
            Screening::Decided(Admission::Denied) => Verdict::Deny,
            Screening::Bearer(t) => Verdict::Present(t@),
        }
    }
}

/// `HeaderValue::to_str` succeeds exactly on these bytes: visible ASCII and tab.
pub open spec fn is_visible_ascii(b: u8) -> bool {
    (32 <= b && b < 127) || b == 9
}

/// The header value reads as text (`HeaderValue::to_str` succeeds).
pub open spec fn header_is_text(h: Seq<u8>) -> bool {
    forall|i: int| 0 <= i < h.len() ==> is_visible_ascii(#[trigger] h[i])
}

/// The header text starts with `bearer` or `Bearer`.
pub open spec fn has_bearer_scheme(h: Seq<u8>) -> bool {
    &&& h.len() >= 6
    &&& (h[0] == 98 || h[0] == 66)
    &&& h[1] == 101
    &&& h[2] == 97
    &&& h[3] == 114
    &&& h[4] == 101
    &&& h[5] == 114
}

/// The token that an `Authorization` header presents: everything after the
/// seventh byte, trimmed, of a textual value that starts with the scheme.
pub open spec fn bearer_token(h: Seq<u8>) -> Option<Seq<char>> {
    if header_is_text(h) && has_bearer_scheme(h) && h.len() >= 7 {
        Some(text::ascii_text(text::trim(h.subrange(7, h.len() as int))))
    } else {
        None
    }
}

/// A textual header that is the bare scheme, with nothing after it: the only
/// header value whose token cannot be cut out. A request for a route that is
/// not public, other than a preflight request, may not carry it (`call`
/// requires so); `screen` gives `Deny` there only to be total.
pub open spec fn is_bare_scheme(h: Seq<u8>) -> bool {
    header_is_text(h) && has_bearer_scheme(h) && h.len() < 7
}

/// `path` starts with one of the public routes, byte for byte.
pub open spec fn is_public_route(path: Seq<char>, routes: Seq<String>) -> bool {
    exists|i: int|
        0 <= i < routes.len() && text::starts_with(
            vstd::utf8::encode_utf8(path),
            vstd::utf8::encode_utf8(#[trigger] routes[i]@),
        )
}

/// The bytes of an optional header value.
pub open spec fn header_bytes(h: Option<&[u8]>) -> Option<Seq<u8>> {
    match h {
        Some(b) => Some(b@),
        None => None,
    }
}

/// How a request is screened: a preflight request passes as `option`, a
/// request for a public route as `anonymous`, both in the `public` domain;
/// any other request presents the bearer token of its `Authorization`
/// header, or is denied where the header holds none.
pub open spec fn screen(is_options: bool, path: Seq<char>, routes: Seq<String>, header: Option<
    Seq<u8>,
>) -> Verdict {
    if is_options {
        Verdict::Grant("option"@, Some("public"@))
    } else if is_public_route(path, routes) {
        Verdict::Grant("anonymous"@, Some("public"@))
    } else {
        match header {
            Some(h) => match bearer_token(h) {
                Some(t) => Verdict::Present(t),
                None => Verdict::Deny,
            },
            None => Verdict::Deny,
        }
    }
}

/// How a request that presented a bearer token is decided: granted to the
/// token's user in the token's domain where the token decoded into `claims`
/// and its login session is valid; denied otherwise.
pub open spec fn token_admission(claims: Option<UserToken>, session_valid: bool) -> Option<
    (Seq<char>, Option<Seq<char>>),
> {
    match claims {
        Some(c) => if session_valid {
            Some((c.user@, Some(c.domain@)))
        } else {
            None
        },
        None => None,
    }
}

/// A preflight request passes as `option` in the `public` domain, whatever
/// its path and headers.
pub proof fn law_preflight_passes(path: Seq<char>, routes: Seq<String>, header: Option<Seq<u8>>)
    ensures
        screen(true, path, routes, header) == Verdict::Grant("option"@, Some("public"@)),
{
}

/// A request for a public route passes as `anonymous` in the `public`
/// domain, whatever credentials it carries.
pub proof fn law_public_routes_ignore_credentials(
    path: Seq<char>,
    routes: Seq<String>,
    h1: Option<Seq<u8>>,
    h2: Option<Seq<u8>>,
)
    requires
        is_public_route(path, routes),
    ensures
        screen(false, path, routes, h1) == screen(false, path, routes, h2),
        screen(false, path, routes, h1) == Verdict::Grant("anonymous"@, Some("public"@)),
{
}

/// Screening never admits a request for a route that is not public unless
/// it is a preflight request: it goes on to the bearer token that the
/// `Authorization` header presents, or denies.
pub proof fn law_private_routes_need_a_token(
    path: Seq<char>,
    routes: Seq<String>,
    header: Option<Seq<u8>>,
)
    requires
        !is_public_route(path, routes),
    ensures
        !(screen(false, path, routes, header) is Grant),
        screen(false, path, routes, header) matches Verdict::Present(t) ==> (header matches Some(
            h,
        ) && bearer_token(h) == Some(t)),
        header is None ==> screen(false, path, routes, header) == Verdict::Deny,
{
}

/// A request for a route that is not public (and not a preflight request)
/// that carries a textual `Authorization` header starting with `bearer` or
/// `Bearer` presents, as its token, the header's bytes from the eighth on with
/// the whitespace around them removed, each byte as the character it is:
/// nothing else is dropped, added or changed.
pub proof fn law_presented_token_is_the_header_tail(
    path: Seq<char>,
    routes: Seq<String>,
    h: Seq<u8>,
) -> (bounds: (int, int))
    requires
        !is_public_route(path, routes),
        h.len() >= 7,
        forall|i: int| 0 <= i < h.len() ==> ((32 <= #[trigger] h[i] && h[i] < 127) || h[i] == 9),
        h[0] == 98 || h[0] == 66,
        h[1] == 101 && h[2] == 97 && h[3] == 114 && h[4] == 101 && h[5] == 114,
    ensures
        ({
            let (lo, hi) = bounds;
            &&& 7 <= lo <= hi <= h.len()
            &&& screen(false, path, routes, Some(h)) matches Verdict::Present(t)
            &&& t.len() == hi - lo
            &&& forall|i: int| 0 <= i < t.len() ==> #[trigger] t[i] == h[lo + i] as char
            &&& forall|j: int| 7 <= j < lo ==> (9 <= #[trigger] h[j] <= 13 || h[j] == 32)
            &&& forall|j: int| hi <= j < h.len() ==> (9 <= #[trigger] h[j] <= 13 || h[j] == 32)
            &&& lo < hi ==> !(9 <= h[lo] <= 13 || h[lo] == 32)
            &&& lo < hi ==> !(9 <= h[hi - 1] <= 13 || h[hi - 1] == 32)
        }),
{
    let tail = h.subrange(7, h.len() as int);
    let a = text::lemma_trim_front(tail);
    let front = text::trim_front(tail);
    let b = text::lemma_trim_back(front);
    let lo = 7 + a;
    let hi = 7 + a + b;
    let trimmed = text::trim(tail);
    assert(trimmed == front.subrange(0, b));
    assert(trimmed =~= h.subrange(lo, hi));
    assert(header_is_text(h));
    let t = text::ascii_text(trimmed);
    assert(screen(false, path, routes, Some(h)) == Verdict::Present(t));
    assert forall|i: int| 0 <= i < t.len() implies #[trigger] t[i] == h[lo + i] as char by {
        assert(trimmed[i] == h[lo + i]);
    }
    assert forall|j: int| 7 <= j < lo implies (9 <= #[trigger] h[j] <= 13 || h[j] == 32) by {
        assert(tail[j - 7] == h[j]);
        assert(text::is_whitespace_byte(tail[j - 7]));
    }
    assert forall|j: int| hi <= j < h.len() implies (9 <= #[trigger] h[j] <= 13 || h[j] == 32) by {
        assert(front[j - lo] == h[j]);
        assert(text::is_whitespace_byte(front[j - lo]));
    }
    if lo < hi {
        assert(front[0] == h[lo]);
        assert(front[b - 1] == h[hi - 1]);
    }
    (lo, hi)
}

/// Every listed route is public, wherever it stands in the list: a request
/// whose path starts, byte for byte, with any of them passes as `anonymous`
/// in the `public` domain, whatever its credentials.
pub proof fn law_every_listed_route_is_public(
    path: Seq<char>,
    routes: Seq<String>,
    i: int,
    header: Option<Seq<u8>>,
)
    requires
        0 <= i < routes.len(),
        vstd::utf8::encode_utf8(routes[i]@).len() <= vstd::utf8::encode_utf8(path).len(),
        vstd::utf8::encode_utf8(path).subrange(0, vstd::utf8::encode_utf8(routes[i]@).len() as int)
            == vstd::utf8::encode_utf8(routes[i]@),
    ensures
        screen(false, path, routes, header) == Verdict::Grant("anonymous"@, Some("public"@)),
{
    assert(text::starts_with(vstd::utf8::encode_utf8(path), vstd::utf8::encode_utf8(routes[i]@)));
}

/// A path that starts with none of the listed routes is not public: a request
/// for it, other than a preflight request, is never granted at screening.
pub proof fn law_unlisted_paths_are_not_public(
    path: Seq<char>,
    routes: Seq<String>,
    header: Option<Seq<u8>>,
)
    requires
        forall|i: int|
            0 <= i < routes.len() ==> !(vstd::utf8::encode_utf8(#[trigger] routes[i]@).len()
                <= vstd::utf8::encode_utf8(path).len() && vstd::utf8::encode_utf8(path).subrange(
                0,
                vstd::utf8::encode_utf8(routes[i]@).len() as int,
            ) == vstd::utf8::encode_utf8(routes[i]@)),
    ensures
        !(screen(false, path, routes, header) is Grant),
{
}

/// A token holder is admitted exactly when the session lookup accepts the
/// token, and then as the user that the lookup names, in the token's domain.
pub proof fn law_admission_follows_session_verdict(claims: UserToken, session_valid: bool)
    ensures
        token_admission(Some(claims), session_valid) is Some <==> crate::token::session_verdict(
            claims,
            session_valid,
        ) is Ok,
        crate::token::session_verdict(claims, session_valid) matches Ok(u) ==> token_admission(
            Some(claims),
            session_valid,
        ) == Some((u, Some(claims.domain@))),
{
}

/// The authentication layer, configured with the route prefixes that need no token.
pub struct Authentication {
    pub ignore_routes: Vec<String>,
}

/// The authentication layer wrapped around a service.
pub struct AuthenticationMiddleware<S> {
    pub service: S,
    pub ignore_routes: Vec<String>,
}

/// A copy of a list of strings.
fn copy_strings(v: &Vec<String>) -> (r: Vec<String>)
    ensures
        r@ == v@,
{
    let mut r: Vec<String> = Vec::new();
    let mut i: usize = 0;
    while i < v.len()
        invariant
            i <= v@.len(),
            r@ == v@.subrange(0, i as int),
        decreases v@.len() - i,
    {
        r.push(v[i].clone());
        assert(r@ =~= v@.subrange(0, i + 1));
        i = i + 1;
    }
    assert(v@.subrange(0, v@.len() as int) =~= v@);
    r
}

impl Authentication {
    pub fn new(ignore_routes: Vec<String>) -> (r: Authentication)
        ensures
            r.ignore_routes@ == ignore_routes@,
    {
        Authentication { ignore_routes }
    }

    /// Wraps `service` in the authentication layer.
    pub fn new_transform<S>(&self, service: S) -> (r: AuthenticationMiddleware<S>)
        ensures
            r.service == service,
            r.ignore_routes@ == self.ignore_routes@,
    {
        AuthenticationMiddleware { service, ignore_routes: copy_strings(&self.ignore_routes) }
    }
}

/// Whether `path` starts with one of `routes`.
fn matches_public_route(path: &str, routes: &Vec<String>) -> (r: bool)
    ensures
        r == is_public_route(path@, routes@),
{
    let p = path.as_bytes();
    let mut i: usize = 0;
    while i < routes.len()
        invariant
            i <= routes@.len(),
            p@ == vstd::utf8::encode_utf8(path@),
            forall|j: int|
                0 <= j < i ==> !text::starts_with(vstd::utf8::encode_utf8(path@), vstd::utf8::encode_utf8(#[trigger] routes@[j]@)),
        decreases routes@.len() - i,
    {
        let route = routes[i].as_str().as_bytes();
        if bytes_start_with(p, route) {
            return true;
        }
        i = i + 1;
    }
    false
}

/// Whether the header value is textual.
fn is_text(h: &[u8]) -> (r: bool)
    ensures
        r == header_is_text(h@),
{
    let mut i: usize = 0;
    while i < h.len()
        invariant
            i <= h@.len(),
            forall|j: int| 0 <= j < i ==> is_visible_ascii(#[trigger] h@[j]),
        decreases h@.len() - i,
    {
        let b: u8 = h[i];
        if !((32 <= b && b < 127) || b == 9) {
            assert(!is_visible_ascii(h@[i as int]));
            return false;
        }
        i = i + 1;
    }
    true
}

/// The bearer token that the header presents, if any.
fn presented_token(h: &[u8]) -> (r: Option<String>)
    requires
        !is_bare_scheme(h@),
    ensures
        match bearer_token(h@) {
            Some(t) => (r matches Some(s) && s@ == t),
            None => r is None,
        },
{
    if !is_text(h) {
        return None;
    }
    if !(h.len() >= 6 && (h[0] == 98 || h[0] == 66) && h[1] == 101 && h[2] == 97 && h[3] == 114
        && h[4] == 101 && h[5] == 114) {
        return None;
    }
    let (lo, hi) = trim_bounds(h, 7);
    Some(ascii_string(h, lo, hi))
}

/// An access subject in the public domain.
fn public_subject(subject: &str) -> (r: AccessSubject)
    ensures
        r.model() == (subject@, Some("public"@)),
{
    AccessSubject { subject: String::from_str(subject), domain: Some(String::from_str("public")) }
}

impl<S> AuthenticationMiddleware<S> {
    /// Screens a request by its method (`is_options`: a preflight request),
    /// its path and its `Authorization` header bytes, if it has one.
    pub fn call(&self, is_options: bool, path: &str, authorization: Option<&[u8]>) -> (r:
        Screening)
        requires
            (!is_options && !is_public_route(path@, self.ignore_routes@)) ==> (authorization matches Some(
                h,
            ) ==> !is_bare_scheme(h@)),
        ensures
            r.model() == screen(is_options, path@, self.ignore_routes@, header_bytes(authorization)),
    {
        if is_options {
            return Screening::Decided(Admission::Granted(public_subject("option")));
        }
        if matches_public_route(path, &self.ignore_routes) {
            return Screening::Decided(Admission::Granted(public_subject("anonymous")));
        }
        match authorization {
            Some(h) => match presented_token(h) {
                Some(t) => Screening::Bearer(t),
                None => Screening::Decided(Admission::Denied),
            },
            None => Screening::Decided(Admission::Denied),
        }
    }

    /// Decides a request that presented a bearer token, from the token's
    /// decoded claims (`None`: the token did not decode) and whether the
    /// session lookup on those claims succeeded.
    pub fn conclude(claims: Option<UserToken>, session_valid: bool) -> (r: Admission)
        ensures
            r.model() == token_admission(claims, session_valid),
    {
        match claims {
            Some(c) => if session_valid {
                Admission::Granted(AccessSubject { subject: c.user, domain: Some(c.domain) })
            } else {
                Admission::Denied
            },
            None => Admission::Denied,
        }
    }
}

} // verus!
