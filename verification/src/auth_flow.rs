//! The sign-in flow's share of the reducer: what each sign-in action
//! does to the session's state, and the effects it asks for.
use vstd::prelude::*;
use crate::effect::{ApiRequest, AuthMethod, Effect};
use crate::sign_in::{failure_message, SignInFailure};
use crate::state::{AuthState, SignInState};
use crate::text::{trim, trim_str};

verus! {

/// The key of the OAuth client id inside a stored token.
pub const CLIENT_ID_KEY: &'static str = "client_id";

/// The key of the OAuth client secret inside a stored token.
pub const CLIENT_SECRET_KEY: &'static str = "client_secret";

/// The answer to a start of the device flow without both client fields.
pub const MISSING_CLIENT: &'static str = "Enter both the OAuth client id and the client secret.";

/// What `serde_json` reads from `json` at two keys: `None` when the
/// text is no JSON value; otherwise, for each key, the string stored
/// under it at the top level of an object, if there is one.
pub uninterp spec fn json_string_pair(json: Seq<char>, first: Seq<char>, second: Seq<char>) -> Option<
    (Option<Seq<char>>, Option<Seq<char>>),
>;

/// Parses `json` with `serde_json::from_str` into a `serde_json::Value`
/// and reads the string under each key with `Value::get`. The result is
/// a function of the three texts alone, so the contract names it; what
/// `serde_json` accepts as JSON is not spelled out here.
#[verifier::external_body]
fn read_json_strings(json: &str, first: &str, second: &str) -> (r: Option<(Option<String>, Option<String>)>)
    ensures
        r matches Some((a, b)) ==> json_string_pair(json@, first@, second@) == Some(
            (crate::model::opt_str(a), crate::model::opt_str(b)),
        ),
        r is None ==> json_string_pair(json@, first@, second@) is None,
{
    match serde_json::from_str::<serde_json::Value>(json) {
        Err(_) => None,
        Ok(value) => {
            let a = match value.get(first) {
                Some(serde_json::Value::String(s)) => Some(s.clone()),
                _ => None,
            };
            let b = match value.get(second) {
                Some(serde_json::Value::String(s)) => Some(s.clone()),
                _ => None,
            };
            Some((a, b))
        },
    }
}

/// The session's sign-in part of the application state.
pub struct AuthSession {
    pub auth: AuthState,
    pub sign_in: SignInState,
    pub session_generation: u64,
}

/// Where signing in stands, as text.
pub enum AuthView {
    SignedOut,
    Verifying,
    SignedIn,
    Failed(Seq<char>),
    ConnectionFailed,
    Expired,
}

pub open spec fn auth_view(a: AuthState) -> AuthView {
    match a {
        AuthState::SignedOut => AuthView::SignedOut,
        AuthState::Verifying => AuthView::Verifying,
        AuthState::SignedIn => AuthView::SignedIn,
        AuthState::Failed(m) => AuthView::Failed(m@),
        AuthState::ConnectionFailed => AuthView::ConnectionFailed,
        AuthState::Expired => AuthView::Expired,
    }
}

/// The sign-in session as values.
pub struct SessionView {
    pub auth: AuthView,
    pub saved_account: bool,
    pub client_id_draft: Seq<char>,
    pub client_secret_draft: Seq<char>,
    pub oauth_url: Option<Seq<char>>,
    pub session_generation: u64,
}

impl View for AuthSession {
    type V = SessionView;

    open spec fn view(&self) -> SessionView {
        SessionView {
            auth: auth_view(self.auth),
            saved_account: self.sign_in.saved_account,
            client_id_draft: self.sign_in.client_id_draft@,
            client_secret_draft: self.sign_in.client_secret_draft@,
            oauth_url: crate::model::opt_str(self.sign_in.oauth_url),
            session_generation: self.session_generation,
        }
    }
}

/// The sign-in flow's actions.
pub enum AuthAction {
    /// The device flow's token reached the credential store.
    OAuthTokenStored,
    SignInCancelled,
    SignInRetryRequested,
    /// A request found the login revoked.
    SessionExpired,
    OAuthClientIdChanged(String),
    OAuthClientSecretChanged(String),
    OAuthStartRequested,
    /// The device flow produced its verification URL.
    OAuthUrlReady(String),
    AuthVerified(Result<(), SignInFailure>),
    /// A stored login turned up at startup.
    StoredAuthFound(AuthMethod),
}

/// The sign-in actions as values.
pub enum AuthActionView {
    OAuthTokenStored,
    SignInCancelled,
    SignInRetryRequested,
    SessionExpired,
    OAuthClientIdChanged(Seq<char>),
    OAuthClientSecretChanged(Seq<char>),
    OAuthStartRequested,
    OAuthUrlReady(Seq<char>),
    AuthVerified(Result<(), SignInFailure>),
    StoredAuthFound(Seq<char>),
}

impl View for AuthAction {
    type V = AuthActionView;

    open spec fn view(&self) -> AuthActionView {
        match self {
            AuthAction::OAuthTokenStored => AuthActionView::OAuthTokenStored,
            AuthAction::SignInCancelled => AuthActionView::SignInCancelled,
            AuthAction::SignInRetryRequested => AuthActionView::SignInRetryRequested,
            AuthAction::SessionExpired => AuthActionView::SessionExpired,
            AuthAction::OAuthClientIdChanged(d) => AuthActionView::OAuthClientIdChanged(d@),
            AuthAction::OAuthClientSecretChanged(d) => AuthActionView::OAuthClientSecretChanged(d@),
            AuthAction::OAuthStartRequested => AuthActionView::OAuthStartRequested,
            AuthAction::OAuthUrlReady(u) => AuthActionView::OAuthUrlReady(u@),
            AuthAction::AuthVerified(r) => AuthActionView::AuthVerified(*r),
            AuthAction::StoredAuthFound(AuthMethod::OAuthToken(json)) => AuthActionView::StoredAuthFound(json@),
        }
    }
}

/// An effect of the sign-in flow, as values; `Other` for any effect
/// the flow never asks for.
pub enum AuthEffectView {
    LoadStoredAuth,
    StartOAuth(Seq<char>, Seq<char>),
    VerifyAuth(Seq<char>),
    Other,
}

pub open spec fn auth_effect_view(e: Effect) -> AuthEffectView {
    match e {
        Effect::LoadStoredAuth => AuthEffectView::LoadStoredAuth,
        Effect::Api(ApiRequest::StartOAuth { client_id, client_secret }) => AuthEffectView::StartOAuth(
            client_id@,
            client_secret@,
        ),
        Effect::Api(ApiRequest::VerifyAuth(AuthMethod::OAuthToken(json))) => AuthEffectView::VerifyAuth(json@),
        _ => AuthEffectView::Other,
    }
}

/// What one sign-in action does: the session afterwards, the effects,
/// and whether the app goes on to the home page.
pub struct AuthStepView {
    pub session: SessionView,
    pub effects: Seq<AuthEffectView>,
    pub go_home: bool,
}

pub open spec fn unchanged(s: SessionView) -> AuthStepView {
    AuthStepView { session: s, effects: Seq::empty(), go_home: false }
}

/// A step to `s` with no effect.
pub open spec fn quiet(s: SessionView) -> AuthStepView {
    AuthStepView { session: s, effects: Seq::empty(), go_home: false }
}

/// A start of the device flow: ignored while a check runs; refused
/// without both trimmed client fields; otherwise a new session that
/// verifies, asking for the flow with the trimmed fields.
pub open spec fn start_oauth_step(s: SessionView) -> AuthStepView {
    let id = trim(s.client_id_draft);
    let secret = trim(s.client_secret_draft);
    if s.auth == AuthView::Verifying {
        quiet(s)
    } else if id.len() == 0 || secret.len() == 0 {
        quiet(SessionView { auth: AuthView::Failed(MISSING_CLIENT@), ..s })
    } else {
        AuthStepView {
            session: SessionView {
                session_generation: (s.session_generation + 1) as u64,
                auth: AuthView::Verifying,
                oauth_url: None,
                ..s
            },
            effects: seq![AuthEffectView::StartOAuth(id, secret)],
            go_home: false,
        }
    }
}

/// The state a failed sign-in check leaves.
pub open spec fn failed_auth(f: SignInFailure) -> AuthView {
    match f {
        SignInFailure::Connection => AuthView::ConnectionFailed,
        SignInFailure::Expired => AuthView::Expired,
        SignInFailure::Configuration => AuthView::Failed(failure_message(f)),
    }
}

/// The client drafts a stored token gives: its client id and secret
/// when it parses, each empty where absent; the drafts as they were
/// when it does not parse.
pub open spec fn stored_drafts(s: SessionView, json: Seq<char>) -> (Seq<char>, Seq<char>) {
    drafts_from(
        json_string_pair(json, CLIENT_ID_KEY@, CLIENT_SECRET_KEY@),
        s.client_id_draft,
        s.client_secret_draft,
    )
}

/// The client drafts that the fields read from a stored token give:
/// with a parsed token, its client id and secret, each empty where
/// absent; with none, the drafts `id` and `secret` as they were.
pub open spec fn drafts_from(
    parsed: Option<(Option<Seq<char>>, Option<Seq<char>>)>,
    id: Seq<char>,
    secret: Seq<char>,
) -> (Seq<char>, Seq<char>) {
    match parsed {
        Some((a, b)) => (
            match a {
                Some(v) => v,
                None => Seq::empty(),
            },
            match b {
                Some(v) => v,
                None => Seq::empty(),
            },
        ),
        None => (id, secret),
    }
}

/// The view of the fields read from a stored token.
pub open spec fn parsed_view(parsed: Option<(Option<String>, Option<String>)>) -> Option<
    (Option<Seq<char>>, Option<Seq<char>>),
> {
    match parsed {
        Some((a, b)) => Some((crate::model::opt_str(a), crate::model::opt_str(b))),
        None => None,
    }
}

/// Takes the client fields read from a stored token into the drafts,
/// as `drafts_from` says.
pub fn take_token_fields(sign_in: &mut SignInState, parsed: Option<(Option<String>, Option<String>)>)
    ensures
        (final(sign_in).client_id_draft@, final(sign_in).client_secret_draft@) == drafts_from(
            parsed_view(parsed),
            old(sign_in).client_id_draft@,
            old(sign_in).client_secret_draft@,
        ),
        final(sign_in).saved_account == old(sign_in).saved_account,
        crate::model::opt_str(final(sign_in).oauth_url) == crate::model::opt_str(old(sign_in).oauth_url),
{
    match parsed {
        Some((id, secret)) => {
            sign_in.client_id_draft = match id {
                Some(v) => v,
                None => String::new(),
            };
            sign_in.client_secret_draft = match secret {
                Some(v) => v,
                None => String::new(),
            };
        },
        None => {},
    }
}

/// The rule of each sign-in action.
pub open spec fn auth_step(s: SessionView, a: AuthActionView) -> AuthStepView {
    match a {
        AuthActionView::OAuthTokenStored => quiet(SessionView { saved_account: true, ..s }),
        AuthActionView::SignInCancelled => quiet(
            SessionView {
                session_generation: (s.session_generation + 1) as u64,
                oauth_url: None,
                auth: if s.saved_account {
                    AuthView::ConnectionFailed
                } else {
                    AuthView::SignedOut
                },
                ..s
            },
        ),
        AuthActionView::SignInRetryRequested => if !s.saved_account || s.auth == AuthView::Verifying {
            quiet(s)
        } else {
            AuthStepView {
                session: SessionView {
                    session_generation: (s.session_generation + 1) as u64,
                    auth: AuthView::Verifying,
                    oauth_url: None,
                    ..s
                },
                effects: seq![AuthEffectView::LoadStoredAuth],
                go_home: false,
            }
        },
        AuthActionView::SessionExpired => if s.auth == AuthView::SignedIn {
            quiet(SessionView { auth: AuthView::Expired, saved_account: true, ..s })
        } else {
            quiet(s)
        },
        AuthActionView::OAuthClientIdChanged(d) => quiet(SessionView { client_id_draft: d, ..s }),
        AuthActionView::OAuthClientSecretChanged(d) => quiet(SessionView { client_secret_draft: d, ..s }),
        AuthActionView::OAuthStartRequested => start_oauth_step(s),
        AuthActionView::OAuthUrlReady(u) => quiet(SessionView { oauth_url: Some(u), ..s }),
        AuthActionView::AuthVerified(Ok(())) => AuthStepView {
            session: SessionView { auth: AuthView::SignedIn, saved_account: true, oauth_url: None, ..s },
            effects: Seq::empty(),
            go_home: true,
        },
        AuthActionView::AuthVerified(Err(f)) => quiet(
            SessionView { oauth_url: None, auth: failed_auth(f), ..s },
        ),
        AuthActionView::StoredAuthFound(json) => {
            let drafts = stored_drafts(s, json);
            AuthStepView {
                session: SessionView {
                    saved_account: true,
                    client_id_draft: drafts.0,
                    client_secret_draft: drafts.1,
                    session_generation: (s.session_generation + 1) as u64,
                    auth: AuthView::Verifying,
                    ..s
                },
                effects: seq![AuthEffectView::VerifyAuth(json)],
                go_home: false,
            }
        },
    }
}

/// A string holding `s`.
fn owned(s: &str) -> (r: String)
    ensures
        r@ == s@,
{
    s.to_owned()
}

impl AuthSession {
    /// A start of the device flow with the drafted client.
    fn start_oauth(&mut self) -> (effects: Vec<Effect>)
        requires
            old(self).session_generation < u64::MAX,
        ensures
            final(self)@ == start_oauth_step(old(self)@).session,
            effects@.map_values(|e: Effect| auth_effect_view(e)) == start_oauth_step(old(self)@).effects,
    {
        if matches!(self.auth, AuthState::Verifying) {
            return Vec::new();
        }
        let id = trim_str(self.sign_in.client_id_draft.as_str());
        let secret = trim_str(self.sign_in.client_secret_draft.as_str());
        if id.unicode_len() == 0 || secret.unicode_len() == 0 {
            self.auth = AuthState::Failed(owned(MISSING_CLIENT));
            return Vec::new();
        }
        let client_id = owned(id);
        let client_secret = owned(secret);
        self.session_generation = self.session_generation + 1;
        self.auth = AuthState::Verifying;
        self.sign_in.oauth_url = None;
        let ghost (i, c) = (client_id@, client_secret@);
        let effects = vec![Effect::Api(ApiRequest::StartOAuth { client_id, client_secret })];
        proof {
            assert(effects@.map_values(|e: Effect| auth_effect_view(e)) =~= seq![
                AuthEffectView::StartOAuth(i, c),
            ]);
        }
        effects
    }

    /// Applies one sign-in action. Returns the effects, and whether the
    /// app goes on to the home page, as a successful check does.
    pub fn apply(&mut self, action: AuthAction) -> (r: (Vec<Effect>, bool))
        requires
            old(self).session_generation < u64::MAX,
        ensures
            final(self)@ == auth_step(old(self)@, action@).session,
            r.0@.map_values(|e: Effect| auth_effect_view(e)) == auth_step(old(self)@, action@).effects,
            r.1 == auth_step(old(self)@, action@).go_home,
    {
        let ghost a = action@;
        match action {
            AuthAction::OAuthTokenStored => {
                self.sign_in.saved_account = true;
                (Vec::new(), false)
            },
            AuthAction::SignInCancelled => {
                self.session_generation = self.session_generation + 1;
                self.sign_in.oauth_url = None;
                self.auth = if self.sign_in.saved_account {
                    AuthState::ConnectionFailed
                } else {
                    AuthState::SignedOut
                };
                (Vec::new(), false)
            },
            AuthAction::SignInRetryRequested => {
                if !self.sign_in.saved_account || matches!(self.auth, AuthState::Verifying) {
                    return (Vec::new(), false);
                }
                self.session_generation = self.session_generation + 1;
                self.auth = AuthState::Verifying;
                self.sign_in.oauth_url = None;
                let effects = vec![Effect::LoadStoredAuth];
                proof {
                    assert(effects@.map_values(|e: Effect| auth_effect_view(e)) =~= seq![
                        AuthEffectView::LoadStoredAuth,
                    ]);
                }
                (effects, false)
            },
            AuthAction::SessionExpired => {
                if matches!(self.auth, AuthState::SignedIn) {
                    self.auth = AuthState::Expired;
                    self.sign_in.saved_account = true;
                }
                (Vec::new(), false)
            },
            AuthAction::OAuthClientIdChanged(draft) => {
                self.sign_in.client_id_draft = draft;
                (Vec::new(), false)
            },
            AuthAction::OAuthClientSecretChanged(draft) => {
                self.sign_in.client_secret_draft = draft;
                (Vec::new(), false)
            },
            AuthAction::OAuthStartRequested => (self.start_oauth(), false),
            AuthAction::OAuthUrlReady(url) => {
                self.sign_in.oauth_url = Some(url);
                (Vec::new(), false)
            },
            AuthAction::AuthVerified(result) => match result {
                Ok(()) => {
                    self.auth = AuthState::SignedIn;
                    self.sign_in.saved_account = true;
                    self.sign_in.oauth_url = None;
                    (Vec::new(), true)
                },
                Err(failure) => {
                    self.sign_in.oauth_url = None;
                    self.auth = match failure {
                        SignInFailure::Connection => AuthState::ConnectionFailed,
                        SignInFailure::Expired => AuthState::Expired,
                        SignInFailure::Configuration => AuthState::Failed(owned(failure.message())),
                    };
                    (Vec::new(), false)
                },
            },
            AuthAction::StoredAuthFound(method) => {
                self.sign_in.saved_account = true;
                let AuthMethod::OAuthToken(json) = &method;
                let parsed = read_json_strings(json.as_str(), CLIENT_ID_KEY, CLIENT_SECRET_KEY);
                take_token_fields(&mut self.sign_in, parsed);
                self.session_generation = self.session_generation + 1;
                self.auth = AuthState::Verifying;
                let ghost j = json@;
                let effects = vec![Effect::Api(ApiRequest::VerifyAuth(method))];
                proof {
                    assert(effects@.map_values(|e: Effect| auth_effect_view(e)) =~= seq![
                        AuthEffectView::VerifyAuth(j),
                    ]);
                }
                (effects, false)
            },
        }
    }
}

} // verus!
