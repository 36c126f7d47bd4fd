//! Authentication in front of a gRPC service.
//!
//! With an authenticator, a request that it refuses is answered with the gRPC status
//! `UNAUTHENTICATED` and does not reach the service. Without one, every request passes.

use crate::auth::{header_fields, refusal, AuthError, ServerAuthenticator, ServerAuthenticatorHandle};
use vstd::prelude::*;

verus! {

/// The number of the gRPC status `UNAUTHENTICATED`.
pub const UNAUTHENTICATED: i32 = 16;

/// The status that answers a request which does not reach the service.
#[derive(Debug)]
pub struct Rejection {
    /// The number of the status.
    pub code: i32,
    /// The message of the status.
    pub message: String,
}

/// Calls `tonic::Status::unauthenticated` and reads the status's code and message: the code is
/// that of `UNAUTHENTICATED`, the message is the one given.
#[verifier::external_body]
fn unauthenticated(message: String) -> (r: Rejection)
    ensures
        r.code == UNAUTHENTICATED,
        r.message@ == message@,
{
    let status = tonic::Status::unauthenticated(message);
    Rejection { code: i32::from(status.code()), message: status.message().to_owned() }
}

/// Decides which requests reach a service.
pub struct AuthMiddleware<A: ServerAuthenticator = Box<dyn ServerAuthenticator>> {
    auth: Option<ServerAuthenticatorHandle<A>>,
}

impl<A: ServerAuthenticator> AuthMiddleware<A> {
    /// The authenticator that requests must satisfy, if any.
    pub closed spec fn authenticator(&self) -> Option<A> {
        match self.auth {
            None => None,
            Some(handle) => Some(handle.authenticator()),
        }
    }

    /// Creates a new middleware: with an authenticator it enforces authentication, without one
    /// every request passes.
    pub fn new(auth: Option<ServerAuthenticatorHandle<A>>) -> (r: Self)
        ensures
            r.authenticator() == match auth {
                None => None,
                Some(handle) => Some(handle.authenticator()),
            },
    {
        Self { auth }
    }

    /// Whether `r` is how a request with these headers is answered where `auth` must be
    /// satisfied: by what a call of its `authenticate` gave, with the message of its error.
    pub open spec fn answers(auth: A, headers: &http::HeaderMap, r: Result<(), Rejection>) -> bool {
        exists|given: Result<(), AuthError>| #[trigger]
            call_ensures(A::authenticate, (&auth, headers), given) && refusal(given) == match r {
                Ok(()) => None,
                Err(rejection) => Some(rejection.message@),
            }
    }

    /// Lets a request with these headers pass to the service, or tells how it is answered
    /// instead.
    pub fn screen(&self, headers: &http::HeaderMap) -> (r: Result<(), Rejection>)
        ensures
            match self.authenticator() {
                None => r is Ok,
                Some(auth) => Self::answers(auth, headers, r) && auth.decides(
                    header_fields(*headers),
                    match r {
                        Ok(()) => None,
                        Err(rejection) => Some(rejection.message@),
                    },
                ),
            },
            r matches Err(rejection) ==> rejection.code == UNAUTHENTICATED,
    {
        match &self.auth {
            None => Ok(()),
            Some(handle) => match handle.authenticate(headers) {
                Ok(()) => Ok(()),
                Err(e) => Err(unauthenticated(e.message)),
            },
        }
    }
}

impl<A: ServerAuthenticator> Clone for AuthMiddleware<A> {
    fn clone(&self) -> (r: Self)
        ensures
            r.authenticator() == self.authenticator(),
    {
        match &self.auth {
            None => Self { auth: None },
            Some(handle) => Self { auth: Some(handle.clone()) },
        }
    }
}

/// A request passes exactly where there is no authenticator or the authenticator accepted it. One
/// that was refused is answered with the status number 16 and the whole message of the refusal.
pub proof fn law_refusals_are_answered<A: ServerAuthenticator>(
    middleware: AuthMiddleware<A>,
    headers: &http::HeaderMap,
    r: Result<(), Rejection>,
) -> (given: Result<(), AuthError>)
    requires
        call_ensures(AuthMiddleware::<A>::screen, (&middleware, headers), r),
    ensures
        middleware.authenticator() is None ==> r is Ok,
        middleware.authenticator() matches Some(auth) ==> {
            &&& call_ensures(A::authenticate, (&auth, headers), given)
            &&& given is Ok <==> r is Ok
            &&& given matches Err(e) ==> (r matches Err(rejection) && rejection.code == 16
                && rejection.message@ == e.message@)
        },
{
    match middleware.authenticator() {
        None => Ok(()),
        Some(auth) => choose|given: Result<(), AuthError>| #[trigger]
            call_ensures(A::authenticate, (&auth, headers), given) && refusal(given) == match r {
                Ok(()) => None,
                Err(rejection) => Some(rejection.message@),
            },
    }
}

} // verus!
