//! Access-token claims: what a token says about its holder, how the claims of
//! a new token are formed, and what a presented token's session lookup yields.

use vstd::prelude::*;
use crate::clock::{read_clock, ClockReading};

verus! {

/// Lifetime of an issued token, in seconds.
pub const ONE_WEEK: i64 = 60 * 60 * 24 * 7;

/// The claims carried by an access token.
pub struct UserToken {
    /// Issued at (seconds since the epoch).
    pub iat: i64,
    /// Expiration (seconds since the epoch).
    pub exp: i64,
    pub user: String,
    pub role: String,
    pub domain: String,
    pub login_session: String,
}

/// Who a token is issued to.
pub struct LoginInfo {
    pub username: String,
    pub role: String,
    pub domain: String,
    pub login_session: String,
}

/// A login form: a user name or e-mail address, and a password.
pub struct LoginForm {
    pub username_or_email: String,
    pub password: String,
}

/// A request for a token: who asks, and in which domain.
pub struct token_request {
    pub name: String,
    pub email: String,
    pub domain: String,
}

/// The role of a token issued on request.
pub open spec fn requested_role() -> Seq<char> {
    "default"@
}

/// The login session of a token issued on request.
pub open spec fn requested_session() -> Seq<char> {
    "10010"@
}

impl token_request {
    /// Whom a token issued on this request is for: the requester's name and
    /// domain, with the default role and the fixed request session.
    pub fn login_info(&self) -> (r: LoginInfo)
        ensures
            r.username@ == self.name@,
            r.role@ == requested_role(),
            r.domain@ == self.domain@,
            r.login_session@ == requested_session(),
    {
        LoginInfo {
            username: self.name.clone(),
            role: String::from_str("default"),
            domain: self.domain.clone(),
            login_session: String::from_str("10010"),
        }
    }
}

/// Whole seconds in `n` nanoseconds, truncated toward zero as `i64` division
/// truncates.
pub open spec fn seconds_of_nanos(n: int) -> int {
    if n >= 0 {
        n / 1_000_000_000
    } else {
        -((-n) / 1_000_000_000)
    }
}

/// Whole seconds in a nanosecond count are that count divided by one billion
/// and truncated toward zero: the count lies within one second of them, on
/// the side of zero away from which they were cut; and a count that fits in
/// an `i64` gives whole seconds between about -9.2 and 9.2 billion, in
/// seconds and never in a finer unit.
pub proof fn law_whole_seconds_of_nanos(n: i64)
    ensures
        n >= 0 ==> seconds_of_nanos(n as int) * 1_000_000_000 <= n < seconds_of_nanos(n as int)
            * 1_000_000_000 + 1_000_000_000,
        n < 0 ==> seconds_of_nanos(n as int) * 1_000_000_000 - 1_000_000_000 < n
            <= seconds_of_nanos(n as int) * 1_000_000_000,
        -9_223_372_036 <= seconds_of_nanos(n as int) <= 9_223_372_036,
{
    let s = seconds_of_nanos(n as int);
    if n >= 0 {
        assert(s * 1_000_000_000 <= n < s * 1_000_000_000 + 1_000_000_000) by (nonlinear_arith)
            requires
                s == (n as int) / 1_000_000_000,
                n >= 0,
        ;
    } else {
        let m: int = -(n as int);
        assert(m / 1_000_000_000 * 1_000_000_000 <= m < m / 1_000_000_000 * 1_000_000_000
            + 1_000_000_000) by (nonlinear_arith)
            requires
                m > 0,
        ;
    }
}

impl UserToken {
    /// The claims of a token for `login` issued at `now_nanos` nanoseconds
    /// since the epoch: issued at that second, expiring a week later.
    pub fn claims_at(login: LoginInfo, now_nanos: i64) -> (r: UserToken)
        ensures
            r.iat == seconds_of_nanos(now_nanos as int),
            r.exp == r.iat + ONE_WEEK,
            r.user == login.username,
            r.role == login.role,
            r.domain == login.domain,
            r.login_session == login.login_session,
    {
        let n: i128 = now_nanos as i128;
        let secs: i128 = if n >= 0 {
            n / 1_000_000_000
        } else {
            -((-n) / 1_000_000_000)
        };
        let iat: i64 = secs as i64;
        UserToken {
            iat,
            exp: iat + ONE_WEEK,
            user: login.username,
            role: login.role,
            domain: login.domain,
            login_session: login.login_session,
        }
    }

    /// The claims of a token for `login` issued at the instant of a clock
    /// reading; `None` where the reading has no nanosecond count.
    pub fn claims_for_reading(login: LoginInfo, reading: ClockReading) -> (r: Option<UserToken>)
        ensures
            match reading.nanos {
                Some(n) => (r matches Some(t) && {
                    &&& t.iat == seconds_of_nanos(n as int)
                    &&& t.exp == t.iat + ONE_WEEK
                    &&& t.user == login.username
                    &&& t.role == login.role
                    &&& t.domain == login.domain
                    &&& t.login_session == login.login_session
                }),
                None => r is None,
            },
    {
        match reading.nanos {
            Some(n) => Some(UserToken::claims_at(login, n)),
            None => None,
        }
    }

    /// The claims of a token for `login` issued now; `None` where the clock
    /// reads beyond the nanosecond range of an `i64` (before 1678 or after
    /// 2262).
    pub fn generate_claims(login: LoginInfo) -> (r: Option<UserToken>)
        ensures
            r matches Some(t) ==> {
                &&& exists|n: i64| t.iat == #[trigger] seconds_of_nanos(n as int)
                &&& t.exp == t.iat + ONE_WEEK
                &&& t.user == login.username
                &&& t.role == login.role
                &&& t.domain == login.domain
                &&& t.login_session == login.login_session
            },
    {
        match read_clock() {
            Some(reading) => {
                let nanos: Option<i64> = reading.nanos;
                let r = UserToken::claims_for_reading(login, reading);
                proof {
                    if let Some(n) = nanos {
                        assert(r->Some_0.iat == seconds_of_nanos(n as int));
                    }
                }
                r
            },
            None => None,
        }
    }
}

/// The message that a rejected session lookup carries.
pub open spec fn invalid_token_message() -> Seq<char> {
    "Invalid token"@
}

/// The verdict on a decoded token: its user where the login session is
/// valid, the invalid-token message where it is not.
pub open spec fn session_verdict(claims: UserToken, session_valid: bool) -> Result<Seq<char>, Seq<char>> {
    if session_valid {
        Ok(claims.user@)
    } else {
        Err(invalid_token_message())
    }
}

/// The verdict on a decoded token, given whether the login session named by its
/// claims was found: the token's user when it was, the invalid-token message
/// when it was not.
pub fn verify_token(claims: &UserToken, session_valid: bool) -> (r: Result<String, String>)
    ensures
        match r {
            Ok(u) => session_verdict(*claims, session_valid) == Ok::<Seq<char>, Seq<char>>(u@),
            Err(m) => session_verdict(*claims, session_valid) == Err::<Seq<char>, Seq<char>>(m@),
        },
{
    if session_valid {
        Ok(claims.user.clone())
    } else {
        Err(String::from_str("Invalid token"))
    }
}

} // verus!
