use ytamp::auth_flow::{AuthAction, AuthSession, MISSING_CLIENT};
use ytamp::effect::{ApiRequest, AuthMethod, Effect};
use ytamp::model::PlaylistId;
use ytamp::reply::{request_failure, ApiReply, LibraryWrite};
use ytamp::sign_in::SignInFailure;
use ytamp::state::{AuthState, SignInState};

#[test]
fn transport_failures_do_not_request_new_credentials() {
    for error in [
        "error sending request",
        "timed out",
        "YouTube answered 503",
        "quotaExceeded",
    ] {
        assert_eq!(SignInFailure::classify(error), SignInFailure::Connection);
    }
    assert_eq!(
        SignInFailure::classify("invalid_grant"),
        SignInFailure::Expired
    );
    assert_eq!(
        SignInFailure::classify("invalid_client"),
        SignInFailure::Configuration
    );
    assert_eq!(
        SignInFailure::classify("YouTube Data API has not been used in project"),
        SignInFailure::Configuration
    );
}

#[test]
fn an_expiry_code_wins_over_a_configuration_code() {
    assert_eq!(
        SignInFailure::classify("invalid_client then 401 Unauthorized"),
        SignInFailure::Expired
    );
}

#[test]
fn each_failure_has_its_message() {
    assert!(SignInFailure::Connection.message().contains("saved sign-in is still here"));
    assert!(SignInFailure::Expired.message().starts_with("Google needs you to sign in again"));
    assert!(SignInFailure::Configuration.message().contains("YouTube Data API v3"));
}

#[test]
fn a_message_converts_through_from() {
    let failure: SignInFailure = "accessNotConfigured".into();
    assert_eq!(failure, SignInFailure::Configuration);
    let failure: SignInFailure = String::from("invalid_token").into();
    assert_eq!(failure, SignInFailure::Expired);
}

fn session() -> AuthSession {
    AuthSession { auth: AuthState::SignedOut, sign_in: SignInState::default(), session_generation: 0 }
}

#[test]
fn starting_the_device_flow_needs_both_trimmed_client_fields() {
    let mut s = session();
    s.apply(AuthAction::OAuthClientIdChanged("  id ".into()));
    let (effects, home) = s.apply(AuthAction::OAuthStartRequested);
    assert!(effects.is_empty() && !home);
    assert_eq!(s.auth, AuthState::Failed(MISSING_CLIENT.to_string()));
    assert_eq!(s.session_generation, 0);
    s.apply(AuthAction::OAuthClientSecretChanged(" secret".into()));
    let (effects, _) = s.apply(AuthAction::OAuthStartRequested);
    assert_eq!(
        effects,
        vec![Effect::Api(ApiRequest::StartOAuth { client_id: "id".into(), client_secret: "secret".into() })]
    );
    assert_eq!(s.auth, AuthState::Verifying);
    assert_eq!(s.session_generation, 1);
    let (effects, _) = s.apply(AuthAction::OAuthStartRequested);
    assert!(effects.is_empty());
}

#[test]
fn a_stored_token_fills_the_client_drafts_and_verifies() {
    let mut s = session();
    let token = r#"{"client_id":"cid","client_secret":"cs","access_token":"x"}"#.to_string();
    let (effects, _) = s.apply(AuthAction::StoredAuthFound(AuthMethod::OAuthToken(token.clone())));
    assert_eq!(effects, vec![Effect::Api(ApiRequest::VerifyAuth(AuthMethod::OAuthToken(token)))]);
    assert_eq!(s.sign_in.client_id_draft, "cid");
    assert_eq!(s.sign_in.client_secret_draft, "cs");
    assert!(s.sign_in.saved_account);
    assert_eq!(s.auth, AuthState::Verifying);
    let mut t = session();
    t.sign_in.client_id_draft = "kept".into();
    t.apply(AuthAction::StoredAuthFound(AuthMethod::OAuthToken("not json".into())));
    assert_eq!(t.sign_in.client_id_draft, "kept");
}

#[test]
fn a_checked_sign_in_goes_home_and_a_failed_one_says_why() {
    let mut s = session();
    s.sign_in.oauth_url = Some("https://example.test".into());
    let (effects, home) = s.apply(AuthAction::AuthVerified(Ok(())));
    assert!(effects.is_empty() && home);
    assert_eq!(s.auth, AuthState::SignedIn);
    assert_eq!(s.sign_in.oauth_url, None);
    s.apply(AuthAction::SessionExpired);
    assert_eq!(s.auth, AuthState::Expired);
    s.apply(AuthAction::AuthVerified(Err(SignInFailure::Configuration)));
    assert_eq!(s.auth, AuthState::Failed(SignInFailure::Configuration.message().to_string()));
    let mut c = session();
    c.apply(AuthAction::SignInCancelled);
    assert_eq!(c.auth, AuthState::SignedOut);
    assert_eq!(c.apply(AuthAction::SignInRetryRequested).0, vec![]);
    c.apply(AuthAction::OAuthTokenStored);
    assert_eq!(c.apply(AuthAction::SignInRetryRequested).0, vec![Effect::LoadStoredAuth]);
}

#[test]
fn failed_requests_answer_the_part_that_asked() {
    assert_eq!(
        request_failure(ApiRequest::Search { request_id: 7, query: "q".into() }, "boom".into()),
        ApiReply::SearchLoaded(7, Err("boom".into()))
    );
    assert_eq!(
        request_failure(ApiRequest::VerifyAuth(AuthMethod::OAuthToken("t".into())), "invalid_grant".into()),
        ApiReply::AuthVerified(Err(SignInFailure::Expired))
    );
    assert_eq!(
        request_failure(ApiRequest::FetchPlaylistCovers(vec![PlaylistId("p".into())]), "x".into()),
        ApiReply::PlaylistCoversLoaded(vec![])
    );
    assert_eq!(
        request_failure(
            ApiRequest::RemoveFromPlaylist { playlist: PlaylistId("p".into()), item_id: "i".into() },
            "x".into()
        ),
        ApiReply::LibraryWriteFinished { what: LibraryWrite::Playlist(PlaylistId("p".into())), result: Err("x".into()) }
    );
    assert_eq!(
        request_failure(ApiRequest::RateTrack { id: ytamp::model::TrackId("t".into()), liked: true }, "x".into()),
        ApiReply::LibraryWriteFinished { what: LibraryWrite::Liked, result: Err("x".into()) }
    );
}
