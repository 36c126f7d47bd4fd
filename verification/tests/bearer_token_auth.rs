use http::header::AUTHORIZATION;
use http::{HeaderMap, HeaderValue};
use otap_dataflow::auth::{AuthError, ServerAuthenticator, ServerAuthenticatorHandle};
use otap_dataflow::bearer_token_auth::{
    create, BearerTokenServerAuth, Config, BEARER_TOKEN_AUTH_URN,
};
use otap_dataflow::control::ControlSignal;
use otap_dataflow::middleware::{AuthMiddleware, UNAUTHENTICATED};

fn make_auth(token: &str) -> BearerTokenServerAuth {
    BearerTokenServerAuth { expected_token: token.to_string() }
}

fn with_header(value: &'static str) -> HeaderMap {
    let mut headers = HeaderMap::new();
    _ = headers.insert(AUTHORIZATION, HeaderValue::from_static(value));
    headers
}

#[test]
fn valid_token_is_accepted() {
    let auth = make_auth("secret-123");
    let mut headers = HeaderMap::new();
    _ = headers.insert(AUTHORIZATION, HeaderValue::from_static("Bearer secret-123"));
    assert!(auth.authenticate(&headers).is_ok());
}

#[test]
fn missing_authorization_header_is_rejected() {
    let auth = make_auth("secret-123");
    let headers = HeaderMap::new();
    let err = auth.authenticate(&headers).unwrap_err();
    assert!(err.message.contains("missing Authorization header"));
}

#[test]
fn wrong_token_is_rejected() {
    let auth = make_auth("correct-token");
    let mut headers = HeaderMap::new();
    _ = headers.insert(AUTHORIZATION, HeaderValue::from_static("Bearer wrong-token"));
    let err = auth.authenticate(&headers).unwrap_err();
    assert!(err.message.contains("invalid bearer token"));
}

#[test]
fn non_bearer_scheme_is_rejected() {
    let auth = make_auth("secret");
    let mut headers = HeaderMap::new();
    _ = headers.insert(AUTHORIZATION, HeaderValue::from_static("Basic dXNlcjpwYXNz"));
    let err = auth.authenticate(&headers).unwrap_err();
    assert!(err.message.contains("not a Bearer token"));
}

#[test]
fn empty_token_in_header_is_rejected() {
    let auth = make_auth("secret");
    let mut headers = HeaderMap::new();
    _ = headers.insert(AUTHORIZATION, HeaderValue::from_static("Bearer "));
    let err = auth.authenticate(&headers).unwrap_err();
    assert!(err.message.contains("invalid bearer token"));
}

#[test]
fn handle_wraps_authenticator() {
    let auth = make_auth("my-token");
    let handle = ServerAuthenticatorHandle::new(auth);

    let mut good = HeaderMap::new();
    _ = good.insert(AUTHORIZATION, HeaderValue::from_static("Bearer my-token"));
    assert!(handle.authenticate(&good).is_ok());

    let bad = HeaderMap::new();
    assert!(handle.authenticate(&bad).is_err());
}

#[test]
fn header_that_is_not_text_is_rejected() {
    let auth = make_auth("secret");
    let mut headers = HeaderMap::new();
    _ = headers.insert(AUTHORIZATION, HeaderValue::from_bytes(b"Bearer s\xffcret").unwrap());
    let err = auth.authenticate(&headers).unwrap_err();
    assert_eq!(err.message, "Authorization header contains invalid characters");
}

#[test]
fn tab_in_a_token_is_text() {
    let auth = make_auth("a\tb");
    assert!(auth.authenticate(&with_header("Bearer a\tb")).is_ok());
}

#[test]
fn the_first_of_several_headers_counts() {
    let auth = make_auth("one");
    let mut headers = with_header("Bearer one");
    _ = headers.append(AUTHORIZATION, HeaderValue::from_static("Bearer two"));
    assert!(auth.authenticate(&headers).is_ok());
    let mut turned = with_header("Bearer two");
    _ = turned.append(AUTHORIZATION, HeaderValue::from_static("Bearer one"));
    assert_eq!(auth.authenticate(&turned).unwrap_err().message, "invalid bearer token");
}

#[test]
fn another_header_is_no_authorization() {
    let auth = make_auth("one");
    let mut headers = HeaderMap::new();
    _ = headers.insert("proxy-authorization", HeaderValue::from_static("Bearer one"));
    assert_eq!(auth.authenticate(&headers).unwrap_err().message, "missing Authorization header");
}

#[test]
fn the_scheme_is_case_sensitive_and_needs_its_space() {
    let auth = make_auth("one");
    let expected = "Authorization header is not a Bearer token";
    assert_eq!(auth.authenticate(&with_header("bearer one")).unwrap_err().message, expected);
    assert_eq!(auth.authenticate(&with_header("Bearer")).unwrap_err().message, expected);
    assert_eq!(
        auth.authenticate(&with_header("Bearer  one")).unwrap_err().message,
        "invalid bearer token"
    );
}

#[test]
fn header_text_is_judged_alone() {
    let auth = make_auth("one");
    assert!(auth.authenticate_text("Bearer one").is_ok());
    assert_eq!(auth.authenticate_text("Bearer on").unwrap_err().message, "invalid bearer token");
}

#[test]
fn tokens_beyond_ascii_match_no_header() {
    let auth = make_auth("t\u{f6}ken");
    assert!(auth.authenticate_text("Bearer t\u{f6}ken").is_ok());
    let mut headers = HeaderMap::new();
    _ = headers.insert(
        AUTHORIZATION,
        HeaderValue::from_bytes("Bearer t\u{f6}ken".as_bytes()).unwrap(),
    );
    assert!(auth.authenticate(&headers).is_err());
}

#[test]
fn create_uses_the_configured_token() {
    let config = Config { token: "abc-123".to_string() };
    let (extension, handle) = create(config.clone());
    assert!(handle.authenticate(&with_header("Bearer abc-123")).is_ok());
    assert!(handle.clone().authenticate(&with_header("Bearer abc-124")).is_err());
    assert!(extension.ends_on(ControlSignal::Shutdown));
    assert!(extension.ends_on(ControlSignal::Closed));
    assert!(!extension.ends_on(ControlSignal::Other));
    assert_eq!(BEARER_TOKEN_AUTH_URN, "urn:otel:extension:bearer_token_auth");
}

#[test]
fn middleware_without_authenticator_lets_everything_pass() {
    let open: AuthMiddleware<BearerTokenServerAuth> = AuthMiddleware::new(None);
    assert!(open.screen(&HeaderMap::new()).is_ok());
    assert!(open.clone().screen(&with_header("Basic x")).is_ok());
}

#[test]
fn middleware_rejects_what_the_authenticator_refuses() {
    let guarded = AuthMiddleware::new(Some(ServerAuthenticatorHandle::new(make_auth("one"))));
    assert!(guarded.screen(&with_header("Bearer one")).is_ok());
    for (headers, message) in [
        (HeaderMap::new(), "missing Authorization header"),
        (with_header("Bearer two"), "invalid bearer token"),
    ] {
        let rejection = match guarded.clone().screen(&headers) {
            Ok(()) => panic!("must not pass"),
            Err(rejection) => rejection,
        };
        assert_eq!(rejection.code, UNAUTHENTICATED);
        assert_eq!(rejection.message, message);
        assert_eq!(tonic::Code::from(rejection.code), tonic::Code::Unauthenticated);
    }
}

/// Refuses everything.
struct Nobody;

impl ServerAuthenticator for Nobody {
    fn authenticate(&self, _headers: &HeaderMap) -> Result<(), AuthError> {
        Err(AuthError { message: "nobody".to_string() })
    }
}

#[test]
fn a_handle_can_be_on_any_authenticator() {
    let authenticator: Box<dyn ServerAuthenticator> = Box::new(Nobody);
    let handle: ServerAuthenticatorHandle = ServerAuthenticatorHandle::new(authenticator);
    assert_eq!(handle.authenticate(&with_header("Bearer one")).unwrap_err().message, "nobody");
    let guarded: AuthMiddleware = AuthMiddleware::new(Some(handle));
    assert!(guarded.screen(&with_header("Bearer one")).is_err());
}
