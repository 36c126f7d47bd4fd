//! Server-side authentication of requests by their headers.

use std::sync::Arc;
use vstd::prelude::*;

verus! {

/// Declares `http::HeaderMap`.
#[verifier::external_type_specification]
#[verifier::external_body]
#[verifier::reject_recursive_types(T)]
pub struct ExHeaderMap<T>(http::HeaderMap<T>);

/// Declares `http::HeaderValue`.
#[verifier::external_type_specification]
#[verifier::external_body]
pub struct ExHeaderValue(http::HeaderValue);

/// Declares `http::header::ToStrError`.
#[verifier::external_type_specification]
#[verifier::external_body]
pub struct ExToStrError(http::header::ToStrError);

/// The fields of a header map: under each field name, in lower case, the bytes of its values in
/// the order in which they were added.
pub uninterp spec fn header_fields(headers: http::HeaderMap) -> Map<Seq<char>, Seq<Seq<u8>>>;

/// The bytes of a header value.
pub uninterp spec fn header_bytes(value: http::HeaderValue) -> Seq<u8>;

/// The first value of the field `name`, if there is one.
pub open spec fn first_value(fields: Map<Seq<char>, Seq<Seq<u8>>>, name: Seq<char>) -> Option<
    Seq<u8>,
> {
    if fields.dom().contains(name) && fields[name].len() > 0 {
        Some(fields[name][0])
    } else {
        None
    }
}

/// Whether every byte is a visible ASCII character, a space or a tab.
pub open spec fn is_visible(bytes: Seq<u8>) -> bool {
    forall|i: int|
        0 <= i < bytes.len() ==> (32 <= #[trigger] bytes[i] && bytes[i] < 127) || bytes[i] == 9
}

/// The characters that ASCII bytes stand for.
pub open spec fn ascii_text(bytes: Seq<u8>) -> Seq<char> {
    bytes.map_values(|b: u8| b as char)
}

/// Calls `http::HeaderMap::get` with `http::header::AUTHORIZATION`: the first value of the field
/// `authorization`, or nothing where there is none.
#[verifier::external_body]
pub(crate) fn authorization(headers: &http::HeaderMap) -> (r: Option<&http::HeaderValue>)
    ensures
        match r {
            Some(value) => first_value(header_fields(*headers), "authorization"@) == Some(
                header_bytes(*value),
            ),
            None => first_value(header_fields(*headers), "authorization"@) is None,
        },
{
    headers.get(http::header::AUTHORIZATION)
}

/// `http::HeaderValue::to_str` gives the value as text where it is all visible ASCII, spaces and
/// tabs, and fails otherwise.
pub assume_specification[ http::HeaderValue::to_str ](value: &http::HeaderValue) -> (r: Result<
    &str,
    http::header::ToStrError,
>)
    ensures
        r is Ok <==> is_visible(header_bytes(*value)),
        r matches Ok(text) ==> text@ == ascii_text(header_bytes(*value)),
;

/// Why a request was not authenticated.
#[derive(Debug)]
pub struct AuthError {
    /// A human-readable description of the failure.
    pub message: String,
}

/// What an authentication result is in contracts: nothing where the request is accepted, the
/// error's message where it is refused.
pub open spec fn refusal(r: Result<(), AuthError>) -> Option<Seq<char>> {
    match r {
        Ok(()) => None,
        Err(e) => Some(e.message@),
    }
}

/// Validates requests by their headers.
pub trait ServerAuthenticator: Send + Sync {
    /// Whether a request with the header fields `fields` can be accepted (`refused` is `None`)
    /// or refused with the message that `refused` holds; an authenticator that does not say can
    /// do either.
    open spec fn decides(
        &self,
        fields: Map<Seq<char>, Seq<Seq<u8>>>,
        refused: Option<Seq<char>>,
    ) -> bool {
        true
    }

    /// Accepts or refuses a request with these headers.
    fn authenticate(&self, headers: &http::HeaderMap) -> (r: Result<(), AuthError>)
        ensures
            self.decides(header_fields(*headers), refusal(r)),
    ;
}

impl ServerAuthenticator for Box<dyn ServerAuthenticator> {
    open spec fn decides(
        &self,
        fields: Map<Seq<char>, Seq<Seq<u8>>>,
        refused: Option<Seq<char>>,
    ) -> bool {
        (**self).decides(fields, refused)
    }

    fn authenticate(&self, headers: &http::HeaderMap) -> (r: Result<(), AuthError>) {
        (**self).authenticate(headers)
    }
}

/// A cloneable handle that receivers use to authenticate requests.
///
/// Clones share one authenticator. Without a type argument the handle is on any authenticator
/// at all.
pub struct ServerAuthenticatorHandle<A: ServerAuthenticator = Box<dyn ServerAuthenticator>> {
    inner: Arc<A>,
}

impl<A: ServerAuthenticator> ServerAuthenticatorHandle<A> {
    /// The authenticator behind the handle.
    pub closed spec fn authenticator(&self) -> A {
        *self.inner
    }

    /// Creates a new handle on the given authenticator.
    pub fn new(authenticator: A) -> (r: Self)
        ensures
            r.authenticator() == authenticator,
    {
        Self { inner: Arc::new(authenticator) }
    }

    /// Accepts or refuses a request with these headers, as the authenticator does.
    pub fn authenticate(&self, headers: &http::HeaderMap) -> (r: Result<(), AuthError>)
        ensures
            call_ensures(A::authenticate, (&self.authenticator(), headers), r),
            self.authenticator().decides(header_fields(*headers), refusal(r)),
    {
        self.inner.authenticate(headers)
    }
}

impl<A: ServerAuthenticator> Clone for ServerAuthenticatorHandle<A> {
    fn clone(&self) -> (r: Self)
        ensures
            r.authenticator() == self.authenticator(),
    {
        Self { inner: self.inner.clone() }
    }
}

} // verus!
