//! Recovery decisions exposed to the UI, without raw server responses or secrets.
use vstd::prelude::*;
use crate::text::{contains_seq, contains_str};

verus! {

/// Why signing in failed, as far as the user has to act on it.
#[derive(Clone, Copy, Debug, PartialEq, Eq, Structural)]
pub enum SignInFailure {
    Connection,
    Expired,
    Configuration,
}

/// What the user reads for a failure.
pub open spec fn failure_message(f: SignInFailure) -> Seq<char> {
    match f {
        SignInFailure::Connection => CONNECTION_MESSAGE@,
        SignInFailure::Expired => EXPIRED_MESSAGE@,
        SignInFailure::Configuration => CONFIGURATION_MESSAGE@,
    }
}

pub const CONNECTION_MESSAGE: &'static str =
    "We couldn’t reach YouTube. Your saved sign-in is still here. Try again when your connection is ready.";

pub const EXPIRED_MESSAGE: &'static str =
    "Google needs you to sign in again. Your queue and settings are still here.";

pub const CONFIGURATION_MESSAGE: &'static str =
    "Check your Google OAuth setup and enable YouTube Data API v3, then try again.";

/// The message names a revoked or expired login.
pub open spec fn names_expiry(m: Seq<char>) -> bool {
    ||| contains_seq(m, "invalid_grant"@)
    ||| contains_seq(m, "invalid_token"@)
    ||| contains_seq(m, "401 Unauthorized"@)
}

/// The message names a broken OAuth client or API setup.
pub open spec fn names_configuration(m: Seq<char>) -> bool {
    ||| contains_seq(m, "invalid_client"@)
    ||| contains_seq(m, "unauthorized_client"@)
    ||| contains_seq(m, "accessNotConfigured"@)
    ||| contains_seq(m, "has not been used in project"@)
    ||| contains_seq(m, "insufficientPermissions"@)
}

/// The failure an error message stands for: only the known auth and
/// configuration codes count; anything else is a connection problem.
pub open spec fn classify_spec(m: Seq<char>) -> SignInFailure {
    if names_expiry(m) {
        SignInFailure::Expired
    } else if names_configuration(m) {
        SignInFailure::Configuration
    } else {
        SignInFailure::Connection
    }
}

impl SignInFailure {
    /// What the user reads for this failure.
    pub fn message(&self) -> (r: &'static str)
        ensures
            r@ == failure_message(*self),
    {
        match self {
            SignInFailure::Connection => CONNECTION_MESSAGE,
            SignInFailure::Expired => EXPIRED_MESSAGE,
            SignInFailure::Configuration => CONFIGURATION_MESSAGE,
        }
    }

    /// The upstream OAuth client wraps Google's machine-readable error in its
    /// parse error. Match only known auth/configuration codes; network errors
    /// must never be treated as a revoked login.
    pub fn classify(message: &str) -> (r: Self)
        ensures
            r == classify_spec(message@),
    {
        if contains_str(message, "invalid_grant") || contains_str(message, "invalid_token")
            || contains_str(message, "401 Unauthorized") {
            SignInFailure::Expired
        } else if contains_str(message, "invalid_client") || contains_str(
            message,
            "unauthorized_client",
        ) || contains_str(message, "accessNotConfigured") || contains_str(
            message,
            "has not been used in project",
        ) || contains_str(message, "insufficientPermissions") {
            SignInFailure::Configuration
        } else {
            SignInFailure::Connection
        }
    }
}

impl From<String> for SignInFailure {
    fn from(message: String) -> (r: Self) {
        SignInFailure::classify(message.as_str())
    }
}

impl vstd::std_specs::convert::FromSpecImpl<String> for SignInFailure {
    open spec fn obeys_from_spec() -> bool {
        true
    }

    open spec fn from_spec(message: String) -> SignInFailure {
        classify_spec(message@)
    }
}

impl<'a> From<&'a str> for SignInFailure {
    fn from(message: &'a str) -> (r: Self) {
        SignInFailure::classify(message)
    }
}

impl<'a> vstd::std_specs::convert::FromSpecImpl<&'a str> for SignInFailure {
    open spec fn obeys_from_spec() -> bool {
        true
    }

    open spec fn from_spec(message: &'a str) -> SignInFailure {
        classify_spec(message@)
    }
}

/// How a failure is read, over every message: one of the expiry codes
/// means the login expired; otherwise one of the setup codes
/// (`invalid_client`, `unauthorized_client`, `accessNotConfigured`, an
/// API not used in the project, `insufficientPermissions`) means the
/// OAuth setup needs fixing; any other message is a connection problem.
pub proof fn law_classify_reads_the_codes(m: Seq<char>)
    ensures
        contains_seq(m, "invalid_grant"@) || contains_seq(m, "invalid_token"@) || contains_seq(m, "401 Unauthorized"@)
            ==> classify_spec(m) == SignInFailure::Expired,
        !(contains_seq(m, "invalid_grant"@) || contains_seq(m, "invalid_token"@) || contains_seq(
            m,
            "401 Unauthorized"@,
        )) ==> (classify_spec(m) == SignInFailure::Configuration <==> (contains_seq(m, "invalid_client"@)
            || contains_seq(m, "unauthorized_client"@) || contains_seq(m, "accessNotConfigured"@) || contains_seq(
            m,
            "has not been used in project"@,
        ) || contains_seq(m, "insufficientPermissions"@))),
        !(contains_seq(m, "invalid_grant"@) || contains_seq(m, "invalid_token"@) || contains_seq(
            m,
            "401 Unauthorized"@,
        )) && contains_seq(m, "insufficientPermissions"@) ==> classify_spec(m) == SignInFailure::Configuration,
{
}

} // verus!
