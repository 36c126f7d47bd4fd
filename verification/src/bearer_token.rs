//! Bearer tokens and the handle through which consumers read them.
//!
//! - [`BearerTokenProvider`] is implemented by components that hold a cached token.
//! - [`BearerTokenProviderHandle`] is a cloneable handle on such a component.
//!
//! Whoever acquires tokens broadcasts them over a `watch` channel; providers and consumers only
//! read what was broadcast last.

use crate::number::integer_text;
use std::borrow::Cow;
use std::sync::Arc;
use vstd::prelude::*;

verus! {

/// Declares `core::fmt::Formatter`.
#[verifier::external_type_specification]
#[verifier::external_body]
pub struct ExFormatter<'a>(core::fmt::Formatter<'a>);

/// Declares `core::fmt::Error`.
#[verifier::external_type_specification]
#[verifier::external_body]
pub struct ExFormatError(core::fmt::Error);

/// The text that a formatter has been given so far.
pub uninterp spec fn formatted(f: core::fmt::Formatter<'_>) -> Seq<char>;

/// Whether a formatter was asked for the alternate form, which is spread over several lines.
pub uninterp spec fn is_alternate(f: core::fmt::Formatter<'_>) -> bool;

/// Whether a formatter was asked for nothing special: no alternate form, width, fill, alignment,
/// sign or base.
pub uninterp spec fn is_plain(f: core::fmt::Formatter<'_>) -> bool;

/// The text that the `Debug` of an `i64` gives to a formatter, by what the formatter was asked
/// for.
pub uninterp spec fn integer_debug(f: core::fmt::Formatter<'_>, n: i64) -> Seq<char>;

/// Whether both formatters were asked for the same.
pub open spec fn asked_alike(f: core::fmt::Formatter<'_>, g: core::fmt::Formatter<'_>) -> bool {
    &&& is_alternate(f) == is_alternate(g)
    &&& is_plain(f) == is_plain(g)
    &&& forall|n: i64| #[trigger] integer_debug(f, n) == integer_debug(g, n)
}

/// Calls `core::fmt::Formatter::write_str`: where it succeeds, the formatter has been given the
/// text behind what it had before. What it was asked for stays.
#[verifier::external_body]
pub(crate) fn write_text(f: &mut core::fmt::Formatter<'_>, text: &str) -> (r: core::fmt::Result)
    ensures
        r is Ok ==> formatted(*final(f)) == formatted(*old(f)) + text@,
        asked_alike(*final(f), *old(f)),
{
    f.write_str(text)
}

/// Calls `core::fmt::Formatter::alternate`: whether the alternate form was asked for. It was not
/// where nothing special was.
#[verifier::external_body]
fn alternate(f: &core::fmt::Formatter<'_>) -> (r: bool)
    ensures
        r == is_alternate(*f),
        is_plain(*f) ==> !r,
{
    f.alternate()
}

/// Calls the `fmt` of `core::fmt::Debug` for an `i64`: where it succeeds, the formatter has been
/// given the number behind what it had before, written as it was asked for; in decimal where
/// nothing special was. What it was asked for stays.
#[verifier::external_body]
fn write_number(f: &mut core::fmt::Formatter<'_>, n: i64) -> (r: core::fmt::Result)
    ensures
        r is Ok ==> formatted(*final(f)) == formatted(*old(f)) + integer_debug(*old(f), n),
        r is Ok && is_plain(*old(f)) ==> formatted(*final(f)) == formatted(*old(f)) + integer_text(
            n as int,
        ),
        asked_alike(*final(f), *old(f)),
{
    core::fmt::Debug::fmt(&n, f)
}

/// `Cow::from` on a string slice keeps its characters.
pub assume_specification<'a>[ <Cow<'a, str> as From<&'a str>>::from ](s: &'a str) -> (c: Cow<'a, str>)
    ensures
        c@ == s@,
;

/// `Cow::from` on a string keeps its characters.
pub assume_specification<'a>[ <Cow<'a, str> as From<String>>::from ](s: String) -> (c: Cow<'a, str>)
    ensures
        c@ == s@,
;

/// `==` on string slices holds exactly where the characters are the same.
pub assume_specification[ <str as PartialEq>::eq ](a: &str, b: &str) -> (r: bool)
    ensures
        r == (a@ == b@),
;

/// A secret value that is kept out of logs and debug output.
///
/// Its view is the value; its [`Debug`] output is the word `Secret`, whatever the value.
#[derive(Eq)]
pub struct Secret(Cow<'static, str>);

impl View for Secret {
    type V = Seq<char>;

    closed spec fn view(&self) -> Seq<char> {
        self.0@
    }
}

impl Secret {
    /// Creates a new `Secret` that holds what `value` converts into.
    #[must_use]
    pub fn new<T>(value: T) -> (r: Self) where T: Into<Cow<'static, str>>
        ensures
            exists|c: Cow<'static, str>| #[trigger]
                call_ensures(<T as Into<Cow<'static, str>>>::into, (value,), c) && r@ == c@,
    {
        Self(value.into())
    }

    /// Returns the secret value.
    #[must_use]
    pub fn secret(&self) -> (r: &str)
        ensures
            r@ == self@,
    {
        match &self.0 {
            Cow::Borrowed(text) => text,
            Cow::Owned(text) => text.as_str(),
        }
    }
}

impl Clone for Secret {
    fn clone(&self) -> (r: Self)
        ensures
            r@ == self@,
    {
        match &self.0 {
            Cow::Borrowed(text) => Self(Cow::Borrowed(text)),
            Cow::Owned(text) => Self(Cow::Owned(text.clone())),
        }
    }
}

impl PartialEq for Secret {
    fn eq(&self, other: &Self) -> (r: bool) {
        *self.secret() == *other.secret()
    }
}

impl vstd::std_specs::cmp::PartialEqSpecImpl for Secret {
    open spec fn obeys_eq_spec() -> bool {
        true
    }

    open spec fn eq_spec(&self, other: &Self) -> bool {
        self@ == other@
    }
}

impl From<String> for Secret {
    fn from(value: String) -> (r: Self)
        ensures
            r@ == value@,
    {
        Self(Cow::Owned(value))
    }
}

impl vstd::std_specs::convert::FromSpecImpl<String> for Secret {
    open spec fn obeys_from_spec() -> bool {
        true
    }

    closed spec fn from_spec(value: String) -> Self {
        Secret(Cow::Owned(value))
    }
}

impl From<&'static str> for Secret {
    fn from(value: &'static str) -> (r: Self)
        ensures
            r@ == value@,
    {
        Self(Cow::Borrowed(value))
    }
}

impl vstd::std_specs::convert::FromSpecImpl<&'static str> for Secret {
    open spec fn obeys_from_spec() -> bool {
        true
    }

    closed spec fn from_spec(value: &'static str) -> Self {
        Secret(Cow::Borrowed(value))
    }
}

impl core::fmt::Debug for Secret {
    fn fmt(&self, f: &mut core::fmt::Formatter<'_>) -> (r: core::fmt::Result)
        ensures
            r is Ok ==> formatted(*final(f)) == formatted(*old(f)) + "Secret"@,
    {
        write_text(f, "Secret")
    }
}

/// A bearer token with its expiration time.
///
/// Its [`Debug`] output shows the expiration time, and the word `Secret` for the token value.
pub struct BearerToken {
    /// The token value.
    pub token: Secret,
    /// The expiration time in seconds since the UNIX epoch.
    pub expires_on: i64,
}

impl View for BearerToken {
    type V = (Seq<char>, i64);

    open spec fn view(&self) -> (Seq<char>, i64) {
        (self.token@, self.expires_on)
    }
}

impl BearerToken {
    /// Creates a new bearer token from what `token` converts into.
    #[must_use]
    pub fn new<T>(token: T, expires_on: i64) -> (r: Self) where T: Into<Secret>
        ensures
            call_ensures(<T as Into<Secret>>::into, (token,), r.token),
            r.expires_on == expires_on,
    {
        Self { token: token.into(), expires_on }
    }
}

/// The [`Debug`] output of a bearer token whose expiration time is written as `expires_on`,
/// whatever its value; in the alternate form on a line for each field.
pub open spec fn token_debug(alternate: bool, expires_on: Seq<char>) -> Seq<char> {
    if alternate {
        "BearerToken {\n    token: Secret,\n    expires_on: "@ + expires_on + ",\n}"@
    } else {
        "BearerToken { token: Secret, expires_on: "@ + expires_on + " }"@
    }
}

impl core::fmt::Debug for BearerToken {
    fn fmt(&self, f: &mut core::fmt::Formatter<'_>) -> (r: core::fmt::Result)
        ensures
            r is Ok ==> formatted(*final(f)) == formatted(*old(f)) + token_debug(
                is_alternate(*old(f)),
                integer_debug(*old(f), self.expires_on),
            ),
            r is Ok && is_plain(*old(f)) ==> formatted(*final(f)) == formatted(*old(f))
                + token_debug(false, integer_text(self.expires_on as int)),
            asked_alike(*final(f), *old(f)),
    {
        let (head, tail) = if alternate(f) {
            ("BearerToken {\n    token: Secret,\n    expires_on: ", ",\n}")
        } else {
            ("BearerToken { token: Secret, expires_on: ", " }")
        };
        let ghost before = formatted(*f);
        if let Err(e) = write_text(f, head) {
            return Err(e);
        }
        let ghost start = *f;
        if let Err(e) = write_number(f, self.expires_on) {
            return Err(e);
        }
        let r = write_text(f, tail);
        assert forall|number: Seq<char>| #[trigger]
            (before + head@ + number + tail@) == before + (head@ + number + tail@) by {
            assert(before + head@ + number + tail@ =~= before + (head@ + number + tail@));
        }
        assert(r is Ok ==> formatted(*f) == before + head@ + integer_debug(start, self.expires_on)
            + tail@);
        assert(r is Ok && is_plain(start) ==> formatted(*f) == before + head@ + integer_text(
            self.expires_on as int,
        ) + tail@);
        r
    }
}

impl Clone for BearerToken {
    fn clone(&self) -> (r: Self)
        ensures
            r@ == self@,
    {
        Self { token: self.token.clone(), expires_on: self.expires_on }
    }
}

/// An error returned by bearer token provider operations.
#[derive(Debug)]
pub struct BearerTokenError {
    /// A human-readable description of the failure.
    pub message: String,
}

impl Clone for BearerTokenError {
    fn clone(&self) -> (r: Self)
        ensures
            r == *self,
    {
        Self { message: self.message.clone() }
    }
}

impl core::fmt::Display for BearerTokenError {
    fn fmt(&self, f: &mut core::fmt::Formatter<'_>) -> (r: core::fmt::Result)
        ensures
            r is Ok ==> formatted(*final(f)) == formatted(*old(f)) + "bearer token error: "@
                + self.message@,
    {
        match write_text(f, "bearer token error: ") {
            Ok(()) => write_text(f, self.message.as_str()),
            Err(e) => Err(e),
        }
    }
}

impl std::error::Error for BearerTokenError {

}

/// Declares `tokio::sync::watch::Receiver`.
#[verifier::external_type_specification]
#[verifier::external_body]
#[verifier::reject_recursive_types(T)]
pub struct ExReceiver<T>(tokio::sync::watch::Receiver<T>);

/// Declares `tokio::sync::watch::Sender`.
#[verifier::external_type_specification]
#[verifier::external_body]
#[verifier::reject_recursive_types(T)]
pub struct ExSender<T>(tokio::sync::watch::Sender<T>);

/// What a cached token is in contracts.
pub open spec fn token_view(token: Option<BearerToken>) -> Option<(Seq<char>, i64)> {
    match token {
        None => None,
        Some(t) => Some(t@),
    }
}

/// Every value that the receiver's channel holds at some time, its initial one among them.
pub uninterp spec fn received(
    rx: tokio::sync::watch::Receiver<Option<BearerToken>>,
) -> Set<Option<(Seq<char>, i64)>>;

/// How far a receiver has seen its channel: what is sent later it shows as new.
pub uninterp spec fn seen_up_to(
    rx: tokio::sync::watch::Receiver<Option<BearerToken>>,
) -> nat;

/// Every value that the sender's channel holds at some time, its initial one among them.
pub uninterp spec fn sent(
    tx: tokio::sync::watch::Sender<Option<BearerToken>>,
) -> Set<Option<(Seq<char>, i64)>>;

/// The values that were sent through the sender so far, in order.
pub uninterp spec fn sent_so_far(
    tx: tokio::sync::watch::Sender<Option<BearerToken>>,
) -> Seq<Option<(Seq<char>, i64)>>;

/// Calls `tokio::sync::watch::channel`: both ends belong to one channel, which holds `initial`
/// first; nothing has been sent yet, and the receiver has seen nothing but that.
#[verifier::external_body]
pub(crate) fn token_channel(initial: Option<BearerToken>) -> (r: (
    tokio::sync::watch::Sender<Option<BearerToken>>,
    tokio::sync::watch::Receiver<Option<BearerToken>>,
))
    ensures
        sent(r.0) == received(r.1),
        received(r.1).contains(token_view(initial)),
        sent_so_far(r.0).len() == 0,
        seen_up_to(r.1) == 0,
{
    tokio::sync::watch::channel(initial)
}

/// Declares `tokio::sync::watch::Ref`.
#[verifier::external_type_specification]
#[verifier::external_body]
#[verifier::reject_recursive_types(T)]
pub struct ExRef<'a, T>(tokio::sync::watch::Ref<'a, T>);

/// The value that a reference into a channel shows.
pub uninterp spec fn shown(
    value: tokio::sync::watch::Ref<'_, Option<BearerToken>>,
) -> Option<(Seq<char>, i64)>;

/// Calls `tokio::sync::watch::Receiver::borrow`: it shows a value that the channel holds. Which
/// one depends on what was sent last when the call is made, and is left unsaid.
#[verifier::external_body]
fn borrowed(rx: &tokio::sync::watch::Receiver<Option<BearerToken>>) -> (r: tokio::sync::watch::Ref<
    '_,
    Option<BearerToken>,
>)
    ensures
        received(*rx).contains(shown(r)),
{
    rx.borrow()
}

/// Calls `deref` on a `tokio::sync::watch::Ref`: the value that it shows.
#[verifier::external_body]
fn value_of<'a>(value: &'a tokio::sync::watch::Ref<'_, Option<BearerToken>>) -> (r: &'a Option<
    BearerToken,
>)
    ensures
        token_view(*r) == shown(*value),
{
    &**value
}

/// Whether `value` is what a call of `tokio::sync::watch::Receiver::borrow` on `rx` showed.
pub closed spec fn has_shown(
    rx: tokio::sync::watch::Receiver<Option<BearerToken>>,
    value: Option<(Seq<char>, i64)>,
) -> bool {
    exists|seen: tokio::sync::watch::Ref<'_, Option<BearerToken>>| #[trigger]
        call_ensures(borrowed, (&rx,), seen) && value == shown(seen)
}

/// A copy of the latest token of the channel, as the receiver shows it. The receiver, and so what
/// it has seen, stays as it was.
pub(crate) fn latest_token(rx: &tokio::sync::watch::Receiver<Option<BearerToken>>) -> (r: Option<
    BearerToken,
>)
    ensures
        has_shown(*rx, token_view(r)),
        received(*rx).contains(token_view(r)),
{
    let value = borrowed(rx);
    assert(call_ensures(borrowed, (rx,), value));
    match value_of(&value) {
        None => None,
        Some(token) => Some(token.clone()),
    }
}

/// Calls `tokio::sync::watch::Receiver::clone`: the new receiver is on the same channel, and has
/// seen of it what the given one has.
#[verifier::external_body]
pub(crate) fn subscribe(rx: &tokio::sync::watch::Receiver<Option<BearerToken>>) -> (r:
    tokio::sync::watch::Receiver<Option<BearerToken>>)
    ensures
        received(r) == received(*rx),
        seen_up_to(r) == seen_up_to(*rx),
{
    rx.clone()
}

/// Calls `tokio::sync::watch::Sender::send_replace`: the channel then holds `token`, and what it
/// held before comes back. The token is one more value sent, and the only one; the sender stays
/// on its channel.
///
/// The call is made through an exclusive reference, although `send_replace` does not ask for
/// one, so that what was sent is known of the sender.
#[verifier::external_body]
pub(crate) fn broadcast(
    tx: &mut tokio::sync::watch::Sender<Option<BearerToken>>,
    token: Option<BearerToken>,
) -> (previous: Option<BearerToken>)
    ensures
        sent_so_far(*final(tx)) == sent_so_far(*old(tx)).push(token_view(token)),
        sent(*final(tx)) == sent(*old(tx)),
        set![token_view(previous), token_view(token)].subset_of(sent(*final(tx))),
{
    tx.send_replace(token)
}

/// Reads cached bearer tokens.
///
/// The methods never wait: they read what was broadcast last.
pub trait BearerTokenProvider: Send {
    /// Whether [`get_token`](BearerTokenProvider::get_token) can return `r`; a provider that does
    /// not say can return anything.
    open spec fn yields(&self, r: Result<(Seq<char>, i64), Seq<char>>) -> bool {
        true
    }

    /// Whether `held` can be the values that a subscription shows; a provider that does not say
    /// can show anything.
    open spec fn announces(&self, held: Set<Option<(Seq<char>, i64)>>) -> bool {
        true
    }

    /// Returns the latest cached token, or an error while there is none.
    fn get_token(&self) -> (r: Result<BearerToken, BearerTokenError>)
        ensures
            self.yields(outcome_view(r)),
    ;

    /// Returns a receiver for token refresh notifications, which holds the latest token or
    /// `None`. Each call creates a subscription of its own.
    fn subscribe_token_refresh(&self) -> (r: tokio::sync::watch::Receiver<Option<BearerToken>>)
        ensures
            self.announces(received(r)),
    ;
}

/// What the result of a token request is in contracts: the token, or the error's message.
pub open spec fn outcome_view(r: Result<BearerToken, BearerTokenError>) -> Result<
    (Seq<char>, i64),
    Seq<char>,
> {
    match r {
        Ok(t) => Ok(t@),
        Err(e) => Err(e.message@),
    }
}

/// A cached token as the result of a request: the token, or, while there is none, an error with
/// the message `missing`.
pub fn token_or(cached: Option<BearerToken>, missing: &str) -> (r: Result<
    BearerToken,
    BearerTokenError,
>)
    ensures
        outcome_view(r) == cached_outcome(token_view(cached), missing@),
{
    match cached {
        Some(token) => Ok(token),
        None => Err(BearerTokenError { message: missing.to_owned() }),
    }
}

/// What a request gives while `cached` is the latest token.
pub open spec fn cached_outcome(cached: Option<(Seq<char>, i64)>, missing: Seq<char>) -> Result<
    (Seq<char>, i64),
    Seq<char>,
> {
    match cached {
        Some(t) => Ok(t),
        None => Err(missing),
    }
}

/// What requests can give that are answered from a channel holding the values `held`.
pub open spec fn answers_from(
    held: Set<Option<(Seq<char>, i64)>>,
    missing: Seq<char>,
    r: Result<(Seq<char>, i64), Seq<char>>,
) -> bool {
    exists|cached: Option<(Seq<char>, i64)>| #[trigger]
        held.contains(cached) && r == cached_outcome(cached, missing)
}

/// Whether `r` is what a call of the provider's own `get_token` returns.
pub open spec fn answers<P: BearerTokenProvider + ?Sized>(
    provider: &P,
    r: Result<BearerToken, BearerTokenError>,
) -> bool {
    call_ensures(P::get_token, (provider,), r)
}

/// Whether `r` is what a call of the provider's own `subscribe_token_refresh` returns.
pub open spec fn subscribes<P: BearerTokenProvider + ?Sized>(
    provider: &P,
    r: tokio::sync::watch::Receiver<Option<BearerToken>>,
) -> bool {
    call_ensures(P::subscribe_token_refresh, (provider,), r)
}

/// Asks a provider for a subscription.
fn ask_subscription<P: BearerTokenProvider + ?Sized>(provider: &P) -> (r:
    tokio::sync::watch::Receiver<Option<BearerToken>>)
    ensures
        subscribes(provider, r),
        provider.announces(received(r)),
{
    provider.subscribe_token_refresh()
}

/// Asks a provider for its token.
fn ask<P: BearerTokenProvider + ?Sized>(provider: &P) -> (r: Result<BearerToken, BearerTokenError>)
    ensures
        answers(provider, r),
        provider.yields(outcome_view(r)),
{
    provider.get_token()
}

/// Declares `std::sync::Mutex`.
#[verifier::external_type_specification]
#[verifier::external_body]
#[verifier::reject_recursive_types(T)]
pub struct ExMutex<T: ?Sized>(std::sync::Mutex<T>);

/// Declares `std::sync::MutexGuard`.
#[verifier::external_type_specification]
#[verifier::external_body]
#[verifier::reject_recursive_types(T)]
pub struct ExMutexGuard<'a, T: ?Sized + 'a>(std::sync::MutexGuard<'a, T>);

/// The provider that a mutex guards.
pub uninterp spec fn guarded(
    lock: std::sync::Mutex<Box<dyn BearerTokenProvider>>,
) -> Box<dyn BearerTokenProvider>;

/// The provider that a guard gives access to.
pub uninterp spec fn accessed(
    guard: std::sync::MutexGuard<'_, Box<dyn BearerTokenProvider>>,
) -> Box<dyn BearerTokenProvider>;

/// Calls `std::sync::Mutex::new` on `provider`, whose type is forgotten: the mutex guards a
/// provider that can give what `provider` can give, and nothing else. A call on the guarded
/// provider is a call on `provider`.
#[verifier::external_body]
fn lock_up<P: BearerTokenProvider + 'static>(provider: P) -> (r: std::sync::Mutex<
    Box<dyn BearerTokenProvider>,
>)
    ensures
        forall|o: Result<(Seq<char>, i64), Seq<char>>| #[trigger]
            guarded(r).yields(o) == provider.yields(o),
        forall|held: Set<Option<(Seq<char>, i64)>>| #[trigger]
            guarded(r).announces(held) == provider.announces(held),
        forall|o: Result<BearerToken, BearerTokenError>| #[trigger]
            answers(&*guarded(r), o) ==> answers(&provider, o),
        forall|rx: tokio::sync::watch::Receiver<Option<BearerToken>>| #[trigger]
            subscribes(&*guarded(r), rx) ==> subscribes(&provider, rx),
{
    std::sync::Mutex::new(Box::new(provider))
}

/// Calls `std::sync::Mutex::lock`: the guard gives access to the provider behind the mutex. A
/// mutex that a panic has left poisoned is locked all the same.
#[verifier::external_body]
fn locked(lock: &std::sync::Mutex<Box<dyn BearerTokenProvider>>) -> (r: std::sync::MutexGuard<
    '_,
    Box<dyn BearerTokenProvider>,
>)
    ensures
        accessed(r) == guarded(*lock),
{
    lock.lock().unwrap_or_else(std::sync::PoisonError::into_inner)
}

/// Calls `deref` on a `std::sync::MutexGuard`: the provider that it gives access to.
#[verifier::external_body]
fn behind<'a>(guard: &'a std::sync::MutexGuard<'_, Box<dyn BearerTokenProvider>>) -> (r: &'a Box<
    dyn BearerTokenProvider,
>)
    ensures
        *r == accessed(*guard),
{
    &**guard
}

/// A cloneable handle that consumers use to obtain bearer tokens.
///
/// Clones share one provider. A mutex around it lets threads share the handle, whether or not
/// the provider could be shared itself.
pub struct BearerTokenProviderHandle {
    inner: Arc<std::sync::Mutex<Box<dyn BearerTokenProvider>>>,
}

impl BearerTokenProviderHandle {
    /// Whether the provider behind the handle can return `r`.
    pub closed spec fn yields(&self, r: Result<(Seq<char>, i64), Seq<char>>) -> bool {
        guarded(*self.inner).yields(r)
    }

    /// Whether `held` can be the values that a subscription of the provider behind the handle
    /// shows.
    pub closed spec fn announces(&self, held: Set<Option<(Seq<char>, i64)>>) -> bool {
        guarded(*self.inner).announces(held)
    }

    /// Whether `r` is an answer that the provider behind the handle gives itself.
    pub closed spec fn hands_on(&self, r: Result<BearerToken, BearerTokenError>) -> bool {
        answers(&*guarded(*self.inner), r)
    }

    /// Whether `rx` is a subscription that the provider behind the handle gives itself.
    pub closed spec fn hands_out(
        &self,
        rx: tokio::sync::watch::Receiver<Option<BearerToken>>,
    ) -> bool {
        subscribes(&*guarded(*self.inner), rx)
    }

    /// Whether both handles are on one provider.
    pub closed spec fn shares_with(&self, other: &Self) -> bool {
        self.inner == other.inner
    }

    /// Creates a new handle on the given provider.
    pub fn new<P: BearerTokenProvider + 'static>(provider: P) -> (r: Self)
        ensures
            forall|o: Result<(Seq<char>, i64), Seq<char>>| #[trigger]
                r.yields(o) == provider.yields(o),
            forall|held: Set<Option<(Seq<char>, i64)>>| #[trigger]
                r.announces(held) == provider.announces(held),
            forall|o: Result<BearerToken, BearerTokenError>| #[trigger]
                r.hands_on(o) ==> answers(&provider, o),
            forall|rx: tokio::sync::watch::Receiver<Option<BearerToken>>| #[trigger]
                r.hands_out(rx) ==> subscribes(&provider, rx),
    {
        Self { inner: Arc::new(lock_up(provider)) }
    }

    /// Returns the latest cached token: what the provider's own `get_token` returns, unchanged.
    pub fn get_token(&self) -> (r: Result<BearerToken, BearerTokenError>)
        ensures
            self.hands_on(r),
            self.yields(outcome_view(r)),
    {
        let guard = locked(&self.inner);
        ask(&**behind(&guard))
    }

    /// Returns a receiver for token refresh notifications: what the provider's own
    /// `subscribe_token_refresh` returns.
    pub fn subscribe_token_refresh(&self) -> (r: tokio::sync::watch::Receiver<Option<BearerToken>>)
        ensures
            self.hands_out(r),
            self.announces(received(r)),
    {
        let guard = locked(&self.inner);
        ask_subscription(&**behind(&guard))
    }
}

impl Clone for BearerTokenProviderHandle {
    fn clone(&self) -> (r: Self)
        ensures
            r.shares_with(self),
            forall|o: Result<(Seq<char>, i64), Seq<char>>| #[trigger] r.yields(o) == self.yields(o),
            forall|held: Set<Option<(Seq<char>, i64)>>| #[trigger]
                r.announces(held) == self.announces(held),
            forall|o: Result<BearerToken, BearerTokenError>| #[trigger]
                r.hands_on(o) == self.hands_on(o),
            forall|rx: tokio::sync::watch::Receiver<Option<BearerToken>>| #[trigger]
                r.hands_out(rx) == self.hands_out(rx),
    {
        Self { inner: self.inner.clone() }
    }
}

impl core::fmt::Debug for BearerTokenProviderHandle {
    fn fmt(&self, f: &mut core::fmt::Formatter<'_>) -> (r: core::fmt::Result)
        ensures
            r is Ok ==> formatted(*final(f)) == formatted(*old(f))
                + "BearerTokenProviderHandle"@,
    {
        write_text(f, "BearerTokenProviderHandle")
    }
}

/// Two secrets are equal exactly where they hold the same characters, whatever their length.
pub proof fn law_secrets_are_equal_by_value(a: Secret, b: Secret, r: bool)
    requires
        call_ensures(<Secret as PartialEq>::eq, (&a, &b), r),
    ensures
        r <==> a@ == b@,
{
}

/// A secret gives back all that it was made of.
pub proof fn law_secrets_give_back_their_value(value: String, secret: Secret, r: &str)
    requires
        call_ensures(<Secret as From<String>>::from, (value,), secret),
        call_ensures(Secret::secret, (&secret,), r),
    ensures
        r@ == value@,
{
}

/// A cached token is returned as it is, with its value and its expiry; without one the error has
/// the whole given message.
pub proof fn law_cached_token_is_returned(
    cached: Option<BearerToken>,
    missing: &str,
    r: Result<BearerToken, BearerTokenError>,
)
    requires
        call_ensures(token_or, (cached, missing), r),
    ensures
        cached matches Some(token) ==> (r matches Ok(given) && given.token@ == token.token@
            && given.expires_on == token.expires_on),
        cached is None ==> (r matches Err(e) && e.message@ == missing@),
{
}

/// A copy of a token has its value and its expiry.
pub proof fn law_copies_are_whole(token: BearerToken, copy: BearerToken)
    requires
        call_ensures(<BearerToken as Clone>::clone, (&token,), copy),
    ensures
        copy.token@ == token.token@,
        copy.expires_on == token.expires_on,
{
}

/// What is shown of a token is a fixed text around its expiry: it depends on the expiry alone,
/// and different texts of the expiry are told apart.
pub proof fn law_shown_token_tells_its_expiry(alternate: bool, a: Seq<char>, b: Seq<char>)
    ensures
        token_debug(false, a) == "BearerToken { token: Secret, expires_on: "@ + a + " }"@,
        token_debug(true, a) == "BearerToken {\n    token: Secret,\n    expires_on: "@ + a
            + ",\n}"@,
        token_debug(alternate, a) == token_debug(alternate, b) ==> a == b,
{
    if token_debug(alternate, a) == token_debug(alternate, b) {
        let (head, tail) = if alternate {
            ("BearerToken {\n    token: Secret,\n    expires_on: "@, ",\n}"@)
        } else {
            ("BearerToken { token: Secret, expires_on: "@, " }"@)
        };
        let whole = head + a + tail;
        assert(whole == head + b + tail);
        let n = head.len() as int;
        assert(whole.len() == head.len() + a.len() + tail.len());
        assert((head + b + tail).len() == head.len() + b.len() + tail.len());
        assert(whole.subrange(n, n + a.len()) =~= a);
        assert((head + b + tail).subrange(n, n + b.len()) =~= b);
    }
}

/// A handle hands on what its provider answered, through every clone.
pub proof fn law_handles_hand_on(
    handle: BearerTokenProviderHandle,
    clone: BearerTokenProviderHandle,
    r: Result<BearerToken, BearerTokenError>,
)
    requires
        call_ensures(<BearerTokenProviderHandle as Clone>::clone, (&handle,), clone),
        call_ensures(BearerTokenProviderHandle::get_token, (&clone,), r),
    ensures
        handle.hands_on(r),
        r matches Ok(token) ==> handle.yields(Ok((token.token@, token.expires_on))),
        r matches Err(e) ==> handle.yields(Err(e.message@)),
{
}

/// A handle on a provider answers with what a call of the provider's own method gave, and so do
/// its subscriptions.
pub proof fn law_handles_ask_their_provider<P: BearerTokenProvider + 'static>(
    provider: P,
    handle: BearerTokenProviderHandle,
    r: Result<BearerToken, BearerTokenError>,
    rx: tokio::sync::watch::Receiver<Option<BearerToken>>,
)
    requires
        call_ensures(BearerTokenProviderHandle::new::<P>, (provider,), handle),
        call_ensures(BearerTokenProviderHandle::get_token, (&handle,), r),
        call_ensures(BearerTokenProviderHandle::subscribe_token_refresh, (&handle,), rx),
    ensures
        call_ensures(P::get_token, (&provider,), r),
        call_ensures(P::subscribe_token_refresh, (&provider,), rx),
{
}

/// The latest token is the one that a look at the receiver showed.
proof fn law_latest_token_was_shown(
    rx: tokio::sync::watch::Receiver<Option<BearerToken>>,
    r: Option<BearerToken>,
) -> (seen: tokio::sync::watch::Ref<'static, Option<BearerToken>>)
    requires
        call_ensures(latest_token, (&rx,), r),
    ensures
        call_ensures(borrowed, (&rx,), seen),
        r matches Some(token) ==> shown(seen) == Some((token.token@, token.expires_on)),
        r is None ==> shown(seen) is None,
{
    choose|seen: tokio::sync::watch::Ref<'_, Option<BearerToken>>| #[trigger]
        call_ensures(borrowed, (&rx,), seen) && token_view(r) == shown(seen)
}

} // verus!
