//! Bearer token authentication of requests.
//!
//! A request must carry an `Authorization: Bearer <token>` header whose token is the configured
//! one; a request without it is refused.

use crate::auth::{ascii_text, authorization, first_value, header_fields, is_visible, refusal, AuthError, ServerAuthenticator, ServerAuthenticatorHandle};
use crate::control::ControlSignal;
use crate::text::{chars_of, has_prefix};
use vstd::prelude::*;

verus! {

/// Identifies the extension in configuration.
pub const BEARER_TOKEN_AUTH_URN: &'static str = "urn:otel:extension:bearer_token_auth";

/// What stands before the token in the header.
pub const BEARER_PREFIX: &'static str = "Bearer ";

/// Configuration of the extension.
#[derive(Debug)]
pub struct Config {
    /// The token that requests must present.
    pub token: String,
}

impl Clone for Config {
    fn clone(&self) -> (r: Self)
        ensures
            r == *self,
    {
        Self { token: self.token.clone() }
    }
}

/// What becomes of a request whose `Authorization` header reads `text`.
pub open spec fn text_refusal(expected: Seq<char>, text: Seq<char>) -> Option<Seq<char>> {
    if !BEARER_PREFIX@.is_prefix_of(text) {
        Some("Authorization header is not a Bearer token"@)
    } else if text.skip(BEARER_PREFIX@.len() as int) != expected {
        Some("invalid bearer token"@)
    } else {
        None
    }
}

/// What becomes of a request whose `Authorization` header has the bytes `value`.
pub open spec fn bearer_refusal(expected: Seq<char>, value: Option<Seq<u8>>) -> Option<Seq<char>> {
    match value {
        None => Some("missing Authorization header"@),
        Some(bytes) => if is_visible(bytes) {
            text_refusal(expected, ascii_text(bytes))
        } else {
            Some("Authorization header contains invalid characters"@)
        },
    }
}

/// Authenticates requests by one fixed bearer token.
pub struct BearerTokenServerAuth {
    /// The token, without the prefix that it has in the header.
    pub expected_token: String,
}

impl BearerTokenServerAuth {
    /// Accepts or refuses a request whose `Authorization` header reads `text`.
    pub fn authenticate_text(&self, text: &str) -> (r: Result<(), AuthError>)
        ensures
            refusal(r) == text_refusal(self.expected_token@, text@),
    {
        let chars = chars_of(text);
        let prefix = chars_of(BEARER_PREFIX);
        if !has_prefix(&chars, &prefix) {
            return Err(
                AuthError { message: "Authorization header is not a Bearer token".to_owned() },
            );
        }
        let provided = text.substring_char(prefix.len(), chars.len());
        if *provided != *self.expected_token.as_str() {
            return Err(AuthError { message: "invalid bearer token".to_owned() });
        }
        Ok(())
    }
}

impl ServerAuthenticator for BearerTokenServerAuth {
    open spec fn decides(
        &self,
        fields: Map<Seq<char>, Seq<Seq<u8>>>,
        refused: Option<Seq<char>>,
    ) -> bool {
        refused == bearer_refusal(self.expected_token@, first_value(fields, "authorization"@))
    }

    fn authenticate(&self, headers: &http::HeaderMap) -> (r: Result<(), AuthError>) {
        match authorization(headers) {
            None => Err(AuthError { message: "missing Authorization header".to_owned() }),
            Some(value) => match value.to_str() {
                Err(_) => Err(
                    AuthError {
                        message: "Authorization header contains invalid characters".to_owned(),
                    },
                ),
                Ok(text) => self.authenticate_text(text),
            },
        }
    }
}

/// The extension: it has no work of its own, it only waits to be shut down.
pub struct BearerTokenAuthExtension;

impl BearerTokenAuthExtension {
    /// Whether the extension ends on `signal`.
    pub fn ends_on(&self, signal: ControlSignal) -> (r: bool)
        ensures
            r == signal.ends(),
    {
        signal.is_end()
    }
}

/// Creates the extension and the handle through which receivers authenticate.
pub fn create(config: Config) -> (r: (
    BearerTokenAuthExtension,
    ServerAuthenticatorHandle<BearerTokenServerAuth>,
))
    ensures
        r.1.authenticator().expected_token == config.token,
{
    let auth = BearerTokenServerAuth { expected_token: config.token };
    (BearerTokenAuthExtension, ServerAuthenticatorHandle::new(auth))
}

/// A request is accepted exactly where its header is the prefix and the configured token.
pub proof fn law_accepts_exactly_the_token(
    auth: BearerTokenServerAuth,
    fields: Map<Seq<char>, Seq<Seq<u8>>>,
    refused: Option<Seq<char>>,
)
    requires
        auth.decides(fields, refused),
    ensures
        refused is None <==> (first_value(fields, "authorization"@) matches Some(bytes)
            && is_visible(bytes) && ascii_text(bytes) == BEARER_PREFIX@ + auth.expected_token@),
{
    if let Some(bytes) = first_value(fields, "authorization"@) {
        let text = ascii_text(bytes);
        let expected = auth.expected_token@;
        let n = BEARER_PREFIX@.len() as int;
        if BEARER_PREFIX@.is_prefix_of(text) {
            assert(text =~= BEARER_PREFIX@ + text.skip(n));
        }
        if text == BEARER_PREFIX@ + expected {
            assert(text.subrange(0, n) =~= BEARER_PREFIX@);
            assert(text.skip(n) =~= expected);
        }
    }
}

/// A request without the header is refused, whatever the token.
pub proof fn law_missing_header_is_refused(
    auth: BearerTokenServerAuth,
    fields: Map<Seq<char>, Seq<Seq<u8>>>,
    refused: Option<Seq<char>>,
)
    requires
        !fields.dom().contains("authorization"@),
        auth.decides(fields, refused),
    ensures
        refused == Some("missing Authorization header"@),
{
}

/// No request is accepted for two different tokens.
pub proof fn law_tokens_are_told_apart(
    a: BearerTokenServerAuth,
    b: BearerTokenServerAuth,
    fields: Map<Seq<char>, Seq<Seq<u8>>>,
)
    requires
        a.expected_token@ != b.expected_token@,
    ensures
        !(a.decides(fields, None) && b.decides(fields, None)),
{
}

/// A header is accepted exactly where it is `Bearer `, with its space and in this case, and then
/// all of the configured token and nothing more.
pub proof fn law_accepted_text(auth: BearerTokenServerAuth, text: &str, r: Result<(), AuthError>)
    requires
        call_ensures(BearerTokenServerAuth::authenticate_text, (&auth, text), r),
    ensures
        r is Ok <==> text@ == "Bearer "@ + auth.expected_token@,
{
    let n = "Bearer "@.len() as int;
    if "Bearer "@.is_prefix_of(text@) {
        assert(text@ =~= "Bearer "@ + text@.skip(n));
    }
    if text@ == "Bearer "@ + auth.expected_token@ {
        assert(text@.subrange(0, n) =~= "Bearer "@);
        assert(text@.skip(n) =~= auth.expected_token@);
    }
}

/// A header that is refused is told why: it is no bearer token at all, or it is one, with
/// whatever text behind the prefix, but not the configured one.
pub proof fn law_refused_text(auth: BearerTokenServerAuth, text: &str, r: Result<(), AuthError>)
    requires
        call_ensures(BearerTokenServerAuth::authenticate_text, (&auth, text), r),
    ensures
        !"Bearer "@.is_prefix_of(text@) ==> (r matches Err(e) && e.message@
            == "Authorization header is not a Bearer token"@),
        forall|given: Seq<char>|
            text@ == #[trigger] ("Bearer "@ + given) && given != auth.expected_token@ ==> (
            r matches Err(e) && e.message@ == "invalid bearer token"@),
{
    let n = "Bearer "@.len() as int;
    assert forall|given: Seq<char>|
        text@ == #[trigger] ("Bearer "@ + given) && given != auth.expected_token@ implies (
    r matches Err(e) && e.message@ == "invalid bearer token"@) by {
        assert(text@.subrange(0, n) =~= "Bearer "@);
        assert(text@.skip(n) =~= given);
    }
}

/// Whether a request is accepted, and what it is told if not, rests on the first value of its
/// `authorization` field: there must be one, it must be visible ASCII, spaces and tabs, and as
/// text it must be the prefix and the configured token.
pub proof fn law_requests_are_judged_by_their_header(
    auth: BearerTokenServerAuth,
    headers: &http::HeaderMap,
    r: Result<(), AuthError>,
)
    requires
        call_ensures(BearerTokenServerAuth::authenticate, (&auth, headers), r),
    ensures
        ({
            let fields = header_fields(*headers);
            let present = fields.dom().contains("authorization"@) && fields["authorization"@].len()
                > 0;
            let value = fields["authorization"@][0];
            let visible = forall|i: int|
                0 <= i < value.len() ==> #[trigger] value[i] == 9 || 32 <= value[i] <= 126;
            let text = Seq::new(value.len(), |i: int| value[i] as char);
            let bearer = "Bearer "@ + auth.expected_token@;
            &&& !present ==> (r matches Err(e) && e.message@ == "missing Authorization header"@)
            &&& present && !visible ==> (r matches Err(e) && e.message@
                == "Authorization header contains invalid characters"@)
            &&& present && visible && text == bearer ==> r is Ok
            &&& present && visible && text != bearer ==> (r matches Err(e) && (e.message@
                == "invalid bearer token"@ <==> "Bearer "@.is_prefix_of(text)) && (e.message@
                == "Authorization header is not a Bearer token"@ <==> !"Bearer "@.is_prefix_of(
                text,
            )))
        }),
{
    reveal_strlit("invalid bearer token");
    reveal_strlit("Authorization header is not a Bearer token");
    let fields = header_fields(*headers);
    if fields.dom().contains("authorization"@) && fields["authorization"@].len() > 0 {
        let value = fields["authorization"@][0];
        let text = Seq::new(value.len(), |i: int| value[i] as char);
        assert(ascii_text(value) =~= text);
        let n = "Bearer "@.len() as int;
        let visible = forall|i: int|
            0 <= i < value.len() ==> #[trigger] value[i] == 9 || 32 <= value[i] <= 126;
        assert(visible == is_visible(value));
        if "Bearer "@.is_prefix_of(text) {
            assert(text =~= "Bearer "@ + text.skip(n));
        }
        let bearer = "Bearer "@ + auth.expected_token@;
        if text == bearer {
            assert(text.subrange(0, n) =~= "Bearer "@);
            assert(text.skip(n) =~= auth.expected_token@);
        }
        assert("invalid bearer token"@.len() != "Authorization header is not a Bearer token"@.len());
    }
}

/// What a created handle checks is the configured token, all of it; and the extension ends as
/// every extension does.
pub proof fn law_created_handle_checks_the_token(
    config: Config,
    r: (BearerTokenAuthExtension, ServerAuthenticatorHandle<BearerTokenServerAuth>),
    signal: ControlSignal,
    ends: bool,
)
    requires
        call_ensures(create, (config,), r),
        call_ensures(BearerTokenAuthExtension::ends_on, (&r.0, signal), ends),
    ensures
        r.1.authenticator().expected_token@ == config.token@,
        ends <==> signal != ControlSignal::Other,
{
}

} // verus!
