//! Azure Identity authentication.
//!
//! The extension acquires Azure AD tokens and broadcasts them to the holders of a
//! [`BearerTokenProviderHandle`]. Each token is refreshed before it expires.

use crate::bearer_token::{answers_from, broadcast, cached_outcome, has_shown, latest_token, outcome_view, received, seen_up_to, sent, sent_so_far, subscribe, token_channel, token_or, token_view, BearerToken, BearerTokenError, BearerTokenProvider, BearerTokenProviderHandle, Secret};
use crate::control::ControlSignal;
use crate::number::{decimal_text, write_count};
use std::sync::Arc;
use vstd::prelude::*;

verus! {

/// Identifies the extension in configuration.
pub const AZURE_IDENTITY_AUTH_URN: &'static str = "urn:microsoft:extension:azure_identity_auth";

/// The shortest time between two token refreshes, in seconds.
pub const MIN_TOKEN_REFRESH_INTERVAL_SECS: u64 = 10;

/// How long before its expiry a token is refreshed, in seconds.
///
/// The credentials cache tokens and issue no new one until about five minutes before expiry.
pub const TOKEN_EXPIRY_BUFFER_SECS: u64 = 295;

/// The longest span of time that the standard library measures, in nanoseconds.
pub const MAX_NANOS: u128 = 18_446_744_073_709_551_615_999_999_999;

const SECOND: i128 = 1_000_000_000;

/// How Azure credentials are obtained.
#[derive(Debug, Clone, Copy, PartialEq, Eq, Structural)]
pub enum AuthMethod {
    /// By a managed identity: the system-assigned one, or a user-assigned one with a client ID.
    ManagedIdentity,
    /// By developer tools: the Azure CLI or the Azure Developer CLI.
    Development,
}

impl Default for AuthMethod {
    fn default() -> (r: Self)
        ensures
            r == AuthMethod::ManagedIdentity,
    {
        AuthMethod::ManagedIdentity
    }
}

/// Configuration of the extension.
#[derive(Debug)]
pub struct Config {
    /// How credentials are obtained.
    pub method: AuthMethod,
    /// The client ID of a user-assigned managed identity; without it the system-assigned one is
    /// used. Developer tools do not use it.
    pub client_id: Option<String>,
    /// The OAuth scope of the tokens.
    pub scope: String,
}

impl Clone for Config {
    fn clone(&self) -> (r: Self)
        ensures
            r == *self,
    {
        Self { method: self.method, client_id: copy_text(&self.client_id), scope: self.scope.clone() }
    }
}

/// A copy of an optional text.
fn copy_text(text: &Option<String>) -> (r: Option<String>)
    ensures
        r == *text,
{
    match text {
        None => None,
        Some(t) => Some(t.clone()),
    }
}

/// The scope of a configuration that names none.
pub fn default_scope() -> (r: String)
    ensures
        r@ == "https://monitor.azure.com/.default"@,
{
    "https://monitor.azure.com/.default".to_owned()
}

/// Why a configuration is refused.
#[derive(Debug)]
pub enum ConfigError {
    /// The user's part of the configuration is not valid.
    InvalidUserConfig {
        /// A human-readable description.
        error: String,
    },
}

impl ConfigError {
    /// The description.
    pub open spec fn description(&self) -> Seq<char> {
        match self {
            ConfigError::InvalidUserConfig { error } => error@,
        }
    }
}

/// A point in time.
#[derive(Debug, Clone, Copy)]
pub struct UtcTime {
    seconds: i64,
    nanosecond: u32,
}

impl UtcTime {
    #[verifier::type_invariant]
    spec fn is_time(self) -> bool {
        self.nanosecond < 1_000_000_000
    }

    /// Nanoseconds since the UNIX epoch.
    pub closed spec fn nanos(&self) -> int {
        self.seconds * 1_000_000_000 + self.nanosecond
    }

    /// The point `nanosecond` nanoseconds behind the given second since the UNIX epoch.
    pub fn from_unix(seconds: i64, nanosecond: u32) -> (r: Self)
        requires
            nanosecond < 1_000_000_000,
        ensures
            r.nanos() == seconds * 1_000_000_000 + nanosecond,
    {
        Self { seconds, nanosecond }
    }

    /// Whole seconds since the UNIX epoch.
    pub fn unix_timestamp(&self) -> (r: i64)
        ensures
            r == self.nanos() / 1_000_000_000,
    {
        proof {
            use_type_invariant(self);
        }
        self.seconds
    }

    /// Nanoseconds since the UNIX epoch.
    fn unix_nanos(&self) -> (r: i128)
        ensures
            r == self.nanos(),
            -0x8000_0000_0000_0000 * SECOND <= r < 0x8000_0000_0000_0000 * SECOND,
    {
        proof {
            use_type_invariant(self);
        }
        self.seconds as i128 * SECOND + self.nanosecond as i128
    }
}

/// An access token and the time at which it expires.
#[derive(Debug)]
pub struct AccessToken {
    /// The token value.
    pub token: Secret,
    /// When the token expires.
    pub expires_on: UtcTime,
}

/// The bearer token that consumers get for an access token.
pub open spec fn bearer_view(token: AccessToken) -> (Seq<char>, i64) {
    (token.token@, (token.expires_on.nanos() / 1_000_000_000) as i64)
}

/// The bearer token that consumers get for an access token: its value, and its expiry in whole
/// seconds.
pub fn bearer_token(token: &AccessToken) -> (r: BearerToken)
    ensures
        r@ == bearer_view(*token),
        r@.1 == token.expires_on.nanos() / 1_000_000_000,
{
    BearerToken::new(token.token.secret().to_owned(), token.expires_on.unix_timestamp())
}

/// How long a token that expires at `expires` is still valid at `now`.
pub open spec fn remaining(expires: int, now: int) -> int {
    if expires > now {
        expires - now
    } else {
        0
    }
}

/// When a token is to be refreshed, in nanoseconds on the clock that read `first` and then
/// `second` when the token, which expires at `expires`, was looked at at `now`: some time before
/// its expiry, but not at once.
pub open spec fn next_refresh(expires: int, now: int, first: int, second: int) -> int {
    let before_expiry = first + remaining(expires, now) - TOKEN_EXPIRY_BUFFER_SECS * 1_000_000_000;
    let soonest = second + MIN_TOKEN_REFRESH_INTERVAL_SECS * 1_000_000_000;
    if before_expiry > soonest {
        before_expiry
    } else {
        soonest
    }
}

/// When a token that expires at `expires` is to be refreshed, for the readings `now`, `first`
/// and `second` of the two clocks.
pub fn next_refresh_at(expires: &UtcTime, now: &UtcTime, first: u128, second: u128) -> (r: u128)
    requires
        first <= MAX_NANOS,
        second <= MAX_NANOS,
    ensures
        r == next_refresh(expires.nanos(), now.nanos(), first as int, second as int),
{
    let expires_nanos: i128 = expires.unix_nanos();
    let now_nanos: i128 = now.unix_nanos();
    let left: i128 = if expires_nanos > now_nanos {
        expires_nanos - now_nanos
    } else {
        0
    };
    let before_expiry: i128 = first as i128 + left - TOKEN_EXPIRY_BUFFER_SECS as i128 * SECOND;
    let soonest: i128 = second as i128 + MIN_TOKEN_REFRESH_INTERVAL_SECS as i128 * SECOND;
    if before_expiry > soonest {
        before_expiry as u128
    } else {
        soonest as u128
    }
}

/// Declares `tokio::time::Instant`.
#[verifier::external_type_specification]
#[verifier::external_body]
pub struct ExInstant(tokio::time::Instant);

/// Calls `tokio::time::Instant::now`; nothing is said of the instant.
#[verifier::external_body]
fn instant_now() -> (r: tokio::time::Instant) {
    tokio::time::Instant::now()
}

/// Whether `at` is an instant that a call of `tokio::time::Instant::now` gave.
pub closed spec fn measured(at: tokio::time::Instant) -> bool {
    call_ensures(instant_now, (), at)
}

/// Where an instant lies on the monotonic clock, in nanoseconds from some fixed point.
pub uninterp spec fn instant_nanos(at: tokio::time::Instant) -> int;

/// The time from `earlier` to `later`, or none where `later` lies before.
pub open spec fn elapsed(earlier: int, later: int) -> int {
    if later > earlier {
        later - earlier
    } else {
        0
    }
}

/// Calls `tokio::time::Instant::duration_since`: the nanoseconds from `earlier` to `later`, or
/// zero where `later` lies before. They are no more than a `Duration` holds.
#[verifier::external_body]
fn nanos_between(earlier: &tokio::time::Instant, later: &tokio::time::Instant) -> (r: u128)
    ensures
        r == elapsed(instant_nanos(*earlier), instant_nanos(*later)),
        r <= MAX_NANOS,
{
    later.duration_since(*earlier).as_nanos()
}

/// Calls `azure_core::time::OffsetDateTime::now_utc`: the whole seconds since the UNIX epoch, and
/// the nanoseconds behind them, which are less than a second. Which time it is is left unsaid.
#[verifier::external_body]
fn utc_now() -> (r: (i64, u32))
    ensures
        r.1 < 1_000_000_000,
{
    let now = azure_core::time::OffsetDateTime::now_utc();
    (now.unix_timestamp(), now.nanosecond())
}

/// Whether `now`, in nanoseconds since the UNIX epoch, is a time of day that a call of
/// `azure_core::time::OffsetDateTime::now_utc` gave.
pub closed spec fn told(now: int) -> bool {
    exists|seconds: i64, nanosecond: u32| #[trigger]
        call_ensures(utc_now, (), (seconds, nanosecond)) && now == seconds * 1_000_000_000
            + nanosecond
}

/// The clock by which refreshes are scheduled; it counts nanoseconds from when it was started.
#[derive(Clone, Copy)]
pub struct RefreshClock {
    origin: tokio::time::Instant,
}

impl RefreshClock {
    /// When the clock was started.
    pub closed spec fn started(&self) -> tokio::time::Instant {
        self.origin
    }

    /// What the clock reads at the instant `at`.
    pub open spec fn reading(&self, at: tokio::time::Instant) -> int {
        elapsed(instant_nanos(self.started()), instant_nanos(at))
    }

    /// The clock that is started at the instant `origin`.
    pub fn starting_at(origin: tokio::time::Instant) -> (r: Self)
        ensures
            r.started() == origin,
    {
        Self { origin }
    }

    /// Starts a clock at the instant of the call.
    pub fn start() -> (r: Self)
        ensures
            measured(r.started()),
    {
        Self::starting_at(instant_now())
    }

    /// When the clock was started.
    pub fn origin(&self) -> (r: tokio::time::Instant)
        ensures
            r == self.started(),
    {
        self.origin
    }

    /// What the clock reads at the instant `at`: the nanoseconds since it was started.
    pub fn reading_at(&self, at: &tokio::time::Instant) -> (r: u128)
        ensures
            r == self.reading(*at),
            r <= MAX_NANOS,
    {
        nanos_between(&self.origin, at)
    }

    /// Whether the clock read `n` at an instant that was measured.
    pub open spec fn has_read(&self, n: int) -> bool {
        exists|at: tokio::time::Instant| measured(at) && n == #[trigger] self.reading(at)
    }

    /// What the clock reads at the instant of the call.
    pub fn now(&self) -> (r: u128)
        ensures
            self.has_read(r as int),
            r <= MAX_NANOS,
    {
        let at = instant_now();
        self.reading_at(&at)
    }
}

/// What the clocks read when a refresh is scheduled: the time of day, and then twice the clock by
/// which refreshes are scheduled.
#[derive(Clone, Copy)]
pub struct Readings {
    now: UtcTime,
    first: u128,
    second: u128,
}

impl Readings {
    #[verifier::type_invariant]
    spec fn are_measured(self) -> bool {
        self.first <= MAX_NANOS && self.second <= MAX_NANOS
    }

    /// The time of day, in nanoseconds since the UNIX epoch.
    pub closed spec fn now(&self) -> int {
        self.now.nanos()
    }

    /// The first reading of the clock.
    pub closed spec fn first(&self) -> int {
        self.first as int
    }

    /// The second reading of the clock.
    pub closed spec fn second(&self) -> int {
        self.second as int
    }

    /// These readings.
    pub fn of(now: UtcTime, first: u128, second: u128) -> (r: Self)
        requires
            first <= MAX_NANOS,
            second <= MAX_NANOS,
        ensures
            r.now() == now.nanos(),
            r.first() == first,
            r.second() == second,
    {
        Self { now, first, second }
    }
}

impl RefreshClock {
    /// Reads the time of day, and this clock twice.
    pub fn read(&self) -> (r: Readings)
        ensures
            told(r.now()),
            self.has_read(r.first()),
            self.has_read(r.second()),
            0 <= r.first() <= MAX_NANOS,
            0 <= r.second() <= MAX_NANOS,
    {
        let (seconds, nanosecond) = utc_now();
        assert(call_ensures(utc_now, (), (seconds, nanosecond)));
        let now = UtcTime::from_unix(seconds, nanosecond);
        let first: u128 = self.now();
        let second: u128 = self.now();
        Readings::of(now, first, second)
    }
}

/// When `token` is to be refreshed, on `clock`.
pub fn get_next_token_refresh(token: &AccessToken, clock: &RefreshClock) -> (r: u128)
    ensures
        is_refresh_of(*clock, token.expires_on.nanos(), r as int),
{
    let at = clock.read();
    assert(told(at.now()));
    next_refresh_at(&token.expires_on, &at.now, at.first, at.second)
}

/// Whether `at` is when, on `clock`, a token that expires at `expires` is to be refreshed, for a
/// time of day that was told and for readings of the clock that were taken.
pub open spec fn is_refresh_of(clock: RefreshClock, expires: int, at: int) -> bool {
    exists|now: int, first: int, second: int|
        told(now) && clock.has_read(first) && clock.has_read(second) && at
            == #[trigger] next_refresh(expires, now, first, second)
}

/// A provider of the tokens that the extension broadcasts.
pub struct AzureIdentityTokenProvider {
    /// Where the tokens arrive.
    pub token_rx: tokio::sync::watch::Receiver<Option<BearerToken>>,
}

impl BearerTokenProvider for AzureIdentityTokenProvider {
    open spec fn yields(&self, r: Result<(Seq<char>, i64), Seq<char>>) -> bool {
        answers_from(received(self.token_rx), "Azure AD token not yet available"@, r)
    }

    open spec fn announces(&self, held: Set<Option<(Seq<char>, i64)>>) -> bool {
        held == received(self.token_rx)
    }

    fn get_token(&self) -> (r: Result<BearerToken, BearerTokenError>)
        ensures
            exists|cached: Option<(Seq<char>, i64)>| #[trigger]
                has_shown(self.token_rx, cached) && outcome_view(r) == cached_outcome(
                    cached,
                    "Azure AD token not yet available"@,
                ),
    {
        let cached = latest_token(&self.token_rx);
        assert(has_shown(self.token_rx, token_view(cached)));
        assert(received(self.token_rx).contains(token_view(cached)));
        token_or(cached, "Azure AD token not yet available")
    }

    fn subscribe_token_refresh(&self) -> (r: tokio::sync::watch::Receiver<Option<BearerToken>>)
        ensures
            seen_up_to(r) == seen_up_to(self.token_rx),
    {
        subscribe(&self.token_rx)
    }
}

/// Declares `azure_core::Error`.
#[verifier::external_type_specification]
#[verifier::external_body]
pub struct ExAzureError(azure_core::Error);

/// Declares `azure_identity::ManagedIdentityCredential`.
#[verifier::external_type_specification]
#[verifier::external_body]
pub struct ExManagedIdentityCredential(azure_identity::ManagedIdentityCredential);

/// Declares `azure_identity::DeveloperToolsCredential`.
#[verifier::external_type_specification]
#[verifier::external_body]
pub struct ExDeveloperToolsCredential(azure_identity::DeveloperToolsCredential);

/// What tokens are requested with.
pub enum Credential {
    /// A managed identity: the user-assigned one with this client ID, or the system-assigned one.
    ManagedIdentity {
        /// The client ID of a user-assigned identity.
        client_id: Option<String>,
        /// The credential itself.
        identity: Arc<azure_identity::ManagedIdentityCredential>,
    },
    /// The developer tools.
    DeveloperTools {
        /// The credential itself.
        tools: Arc<azure_identity::DeveloperToolsCredential>,
    },
}

/// A client ID in contracts.
pub open spec fn id_view(client_id: Option<String>) -> Option<Seq<char>> {
    match client_id {
        None => None,
        Some(id) => Some(id@),
    }
}

/// The client ID of the user-assigned identity that a credential was built for; nothing where it
/// was built for the system-assigned one.
pub uninterp spec fn built_for(
    identity: azure_identity::ManagedIdentityCredential,
) -> Option<Seq<char>>;

/// Calls `azure_identity::ManagedIdentityCredential::new` for the user-assigned identity with
/// this client ID, or for the system-assigned one: the credential that comes back is built for
/// that identity. The client ID is kept with it. Whether one comes back depends on the
/// environment, and is left unsaid; on a machine where no HTTP client can be set up the call
/// panics.
#[verifier::external_body]
fn managed_identity(client_id: Option<String>) -> (r: Result<Credential, azure_core::Error>)
    ensures
        r matches Ok(c) ==> (c matches Credential::ManagedIdentity { client_id: id, identity }
            && id == client_id && built_for(*identity) == id_view(client_id)),
{
    let mut options = azure_identity::ManagedIdentityCredentialOptions::default();
    options.user_assigned_id = client_id.clone().map(azure_identity::UserAssignedId::ClientId);
    let identity = azure_identity::ManagedIdentityCredential::new(Some(options))?;
    Ok(Credential::ManagedIdentity { client_id, identity })
}

/// Calls `azure_identity::DeveloperToolsCredential::new` with its default options, which always
/// gives a credential.
#[verifier::external_body]
fn developer_tools() -> (r: Result<Credential, azure_core::Error>)
    ensures
        r is Ok,
        r matches Ok(c) ==> c is DeveloperTools,
{
    let options = azure_identity::DeveloperToolsCredentialOptions::default();
    let tools = azure_identity::DeveloperToolsCredential::new(Some(options))?;
    Ok(Credential::DeveloperTools { tools })
}

/// The text that an error is displayed as.
pub uninterp spec fn error_display(error: azure_core::Error) -> Seq<char>;

/// Calls `to_string` on an `azure_core::Error`: the text that its `Display` gives.
#[verifier::external_body]
fn error_text(error: &azure_core::Error) -> (r: String)
    ensures
        r@ == error_display(*error),
{
    error.to_string()
}

/// What the description of a failure to create the credential begins with.
pub open spec fn failure_prefix(method: AuthMethod) -> Seq<char> {
    match method {
        AuthMethod::ManagedIdentity => "Failed to create managed identity credential: "@,
        AuthMethod::Development => "Failed to create developer tools credential: "@,
    }
}

/// The error for a credential that could not be created, for the reason `detail`.
pub fn credential_error(method: AuthMethod, detail: &str) -> (r: ConfigError)
    ensures
        r.description() == failure_prefix(method) + detail@,
{
    let mut error = match method {
        AuthMethod::ManagedIdentity => "Failed to create managed identity credential: ".to_owned(),
        AuthMethod::Development => "Failed to create developer tools credential: ".to_owned(),
    };
    error.append(detail);
    ConfigError::InvalidUserConfig { error }
}

/// Whether `credential` is the one that `config` asks for: for a managed identity, built for the
/// configured client ID or the system-assigned identity; developer tools do not use the ID.
pub open spec fn is_credential_for(credential: Credential, config: Config) -> bool {
    match config.method {
        AuthMethod::ManagedIdentity => credential matches Credential::ManagedIdentity {
            client_id,
            identity,
        } && client_id == config.client_id && built_for(*identity) == id_view(config.client_id),
        AuthMethod::Development => credential is DeveloperTools,
    }
}

/// Whether `error` says that the credential for `method` could not be created because of `cause`.
pub open spec fn is_credential_error(
    error: ConfigError,
    method: AuthMethod,
    cause: azure_core::Error,
) -> bool {
    error.description() == failure_prefix(method) + error_display(cause)
}

/// Whether `cause` is the error with which a call of
/// `azure_identity::ManagedIdentityCredential::new` for this client ID failed.
pub closed spec fn refused(client_id: Option<String>, cause: azure_core::Error) -> bool {
    call_ensures(managed_identity, (client_id,), Err(cause))
}

/// Whether `error` says that the managed identity that `config` asks for could not be had, with
/// the text of the error with which the attempt failed.
pub open spec fn is_refusal_of(error: ConfigError, config: Config) -> bool {
    exists|cause: azure_core::Error|
        refused(config.client_id, cause) && #[trigger] is_credential_error(
            error,
            AuthMethod::ManagedIdentity,
            cause,
        )
}

/// What comes of the attempt `made` at a credential for `method`: the credential itself, or an
/// error with the text of the one that came back.
pub fn credential_result(
    method: AuthMethod,
    made: Result<Credential, azure_core::Error>,
) -> (r: Result<Credential, ConfigError>)
    ensures
        match made {
            Ok(credential) => r == Ok::<Credential, ConfigError>(credential),
            Err(cause) => r matches Err(error) && is_credential_error(error, method, cause),
        },
{
    match made {
        Ok(credential) => Ok(credential),
        Err(cause) => {
            let detail = error_text(&cause);
            Err(credential_error(method, detail.as_str()))
        },
    }
}

/// Creates the credential that `config` asks for.
///
/// Developer tools are always to be had. Whether a managed identity is depends on the
/// environment.
pub fn create_credential(config: &Config) -> (r: Result<Credential, ConfigError>)
    ensures
        config.method is Development ==> r is Ok,
        match r {
            Ok(credential) => is_credential_for(credential, *config),
            Err(error) => is_refusal_of(error, *config),
        },
{
    let made = match config.method {
        AuthMethod::ManagedIdentity => managed_identity(copy_text(&config.client_id)),
        AuthMethod::Development => developer_tools(),
    };
    credential_result(config.method, made)
}

/// What the extension is told.
pub enum RefreshEvent {
    /// Something came over the control channel.
    Control(ControlSignal),
    /// A token was due and was acquired.
    Acquired(AccessToken),
    /// A token was due and could not be acquired.
    Failed,
}

/// What the extension does next.
#[derive(Debug, Clone, Copy, PartialEq, Eq, Structural)]
pub enum RefreshStep {
    /// It ends.
    Stop,
    /// It waits for the control channel, and for this reading of its clock, at which a token is
    /// due.
    WaitUntil(u128),
}

/// The extension: it keeps a token fresh and broadcasts it.
pub struct AzureIdentityAuthExtension {
    credential: Credential,
    scope: String,
    bearer_token_tx: tokio::sync::watch::Sender<Option<BearerToken>>,
}

impl AzureIdentityAuthExtension {
    /// What tokens are requested with.
    pub closed spec fn requests_with(&self) -> Credential {
        self.credential
    }

    /// The scope of the tokens.
    pub closed spec fn requests_for(&self) -> Seq<char> {
        self.scope@
    }

    /// What the extension broadcast so far, in order.
    pub closed spec fn broadcast_so_far(&self) -> Seq<Option<(Seq<char>, i64)>> {
        sent_so_far(self.bearer_token_tx)
    }

    /// Everything that the extension broadcasts at some time, the absence of a token before the
    /// first one included.
    pub closed spec fn broadcasts(&self) -> Set<Option<(Seq<char>, i64)>> {
        sent(self.bearer_token_tx)
    }

    /// What tokens are requested with.
    pub fn credential(&self) -> (r: &Credential)
        ensures
            *r == self.requests_with(),
    {
        &self.credential
    }

    /// The scope of the tokens.
    pub fn scope(&self) -> (r: &str)
        ensures
            r@ == self.requests_for(),
    {
        self.scope.as_str()
    }

    /// What to do first: a token is due at once.
    pub fn begin(&self) -> (r: RefreshStep)
        ensures
            r == RefreshStep::WaitUntil(0),
    {
        RefreshStep::WaitUntil(0)
    }

    /// Takes in `event` while the next token is due at `due`, with what the clocks read
    /// then, and tells what to do next.
    ///
    /// An acquired token is broadcast, and nothing else is.
    pub fn on_event(&mut self, due: u128, event: RefreshEvent, at: &Readings) -> (r: RefreshStep)
        ensures
            r == next_step(event, due, at.now(), at.first(), at.second()),
            final(self).broadcast_so_far() == old(self).broadcast_so_far() + event_broadcasts(event),
            event matches RefreshEvent::Acquired(token) ==> final(self).broadcasts().contains(
                Some(bearer_view(token)),
            ),
            final(self).broadcasts() == old(self).broadcasts(),
            final(self).requests_with() == old(self).requests_with(),
            final(self).requests_for() == old(self).requests_for(),
    {
        proof {
            use_type_invariant(at);
        }
        if let RefreshEvent::Acquired(token) = &event {
            let _ = broadcast(&mut self.bearer_token_tx, Some(bearer_token(token)));
        }
        assert(self.broadcast_so_far() =~= old(self).broadcast_so_far() + event_broadcasts(event));
        refresh_step(&event, due, &at.now, at.first, at.second)
    }
}

/// What the extension does next after `event`, while a token is due at `due`, where the time of
/// day is `now` and its clock reads `first` and then `second`.
pub open spec fn next_step(
    event: RefreshEvent,
    due: u128,
    now: int,
    first: int,
    second: int,
) -> RefreshStep {
    match event {
        RefreshEvent::Control(signal) => if signal.ends() {
            RefreshStep::Stop
        } else {
            RefreshStep::WaitUntil(due)
        },
        RefreshEvent::Acquired(token) => RefreshStep::WaitUntil(
            next_refresh(token.expires_on.nanos(), now, first, second) as u128,
        ),
        RefreshEvent::Failed => RefreshStep::WaitUntil(
            (second + MIN_TOKEN_REFRESH_INTERVAL_SECS * 1_000_000_000) as u128,
        ),
    }
}

/// What the extension does next after `event`, for these readings of the clocks: it ends when it
/// is told to, waits for a new token until the old one nears its expiry, and requests a token
/// again a while after it could not be acquired. Other messages change nothing.
pub fn refresh_step(
    event: &RefreshEvent,
    due: u128,
    now: &UtcTime,
    first: u128,
    second: u128,
) -> (r: RefreshStep)
    requires
        first <= MAX_NANOS,
        second <= MAX_NANOS,
    ensures
        r == next_step(*event, due, now.nanos(), first as int, second as int),
{
    match event {
        RefreshEvent::Control(signal) => if signal.is_end() {
            RefreshStep::Stop
        } else {
            RefreshStep::WaitUntil(due)
        },
        RefreshEvent::Acquired(token) => RefreshStep::WaitUntil(
            next_refresh_at(&token.expires_on, now, first, second),
        ),
        RefreshEvent::Failed => RefreshStep::WaitUntil(retry_at(second)),
    }
}

/// The time to the next refresh as it is told: hours, minutes and seconds.
pub open spec fn countdown_text(seconds: nat) -> Seq<char> {
    decimal_text(seconds / 3600) + "h "@ + decimal_text((seconds % 3600) / 60) + "m "@
        + decimal_text(seconds % 60) + "s"@
}

/// Writes the time to the next refresh, which is due in so many whole seconds.
pub fn countdown(seconds: u64) -> (r: String)
    ensures
        r@ == countdown_text(seconds as nat),
{
    let mut text = write_count(seconds / 3600);
    text.append("h ");
    text.append(write_count((seconds % 3600) / 60).as_str());
    text.append("m ");
    text.append(write_count(seconds % 60).as_str());
    text.append("s");
    text
}

/// What the extension broadcasts on `event`: the token where one was acquired, else nothing.
pub open spec fn event_broadcasts(event: RefreshEvent) -> Seq<Option<(Seq<char>, i64)>> {
    match event {
        RefreshEvent::Acquired(token) => seq![Some(bearer_view(token))],
        _ => seq![],
    }
}

/// What the extension broadcasts on a series of events.
pub open spec fn series_broadcasts(events: Seq<RefreshEvent>) -> Seq<Option<(Seq<char>, i64)>>
    decreases events.len(),
{
    if events.len() == 0 {
        seq![]
    } else {
        series_broadcasts(events.drop_last()) + event_broadcasts(events.last())
    }
}

/// The tokens that were acquired in a series of events, as consumers get them.
pub open spec fn acquired(events: Seq<RefreshEvent>) -> Seq<(Seq<char>, i64)>
    decreases events.len(),
{
    if events.len() == 0 {
        seq![]
    } else {
        match events.last() {
            RefreshEvent::Acquired(token) => acquired(events.drop_last()).push(bearer_view(token)),
            _ => acquired(events.drop_last()),
        }
    }
}

/// When a token is requested again that could not be acquired, for the reading `now` of the
/// clock: the shortest time between refreshes later.
pub fn retry_at(now: u128) -> (r: u128)
    requires
        now <= MAX_NANOS,
    ensures
        r == now + MIN_TOKEN_REFRESH_INTERVAL_SECS * 1_000_000_000,
{
    now + MIN_TOKEN_REFRESH_INTERVAL_SECS as u128 * 1_000_000_000
}

/// Whether the handle's provider reads what the extension broadcasts, and nothing else.
pub open spec fn reads_from(
    handle: BearerTokenProviderHandle,
    extension: AzureIdentityAuthExtension,
) -> bool {
    &&& forall|o: Result<(Seq<char>, i64), Seq<char>>| #[trigger]
        handle.yields(o) == answers_from(
            extension.broadcasts(),
            "Azure AD token not yet available"@,
            o,
        )
    &&& forall|held: Set<Option<(Seq<char>, i64)>>| #[trigger]
        handle.announces(held) == (held == extension.broadcasts())
}

/// Creates the extension and the handle through which consumers read its tokens.
pub fn create(config: Config) -> (r: Result<
    (AzureIdentityAuthExtension, BearerTokenProviderHandle),
    ConfigError,
>)
    ensures
        config.scope@.len() == 0 ==> (r matches Err(e) && e.description()
            == "auth scope must be non-empty"@),
        config.scope@.len() > 0 && config.method is Development ==> r is Ok,
        config.scope@.len() > 0 ==> match r {
            Ok((extension, handle)) => {
                &&& is_credential_for(extension.requests_with(), config)
                &&& extension.requests_for() == config.scope@
                &&& extension.broadcast_so_far().len() == 0
                &&& reads_from(handle, extension)
                &&& extension.broadcasts().contains(None)
            },
            Err(e) => is_refusal_of(e, config),
        },
{
    if config.scope.as_str().is_empty() {
        return Err(
            ConfigError::InvalidUserConfig { error: "auth scope must be non-empty".to_owned() },
        );
    }
    let credential = match create_credential(&config) {
        Ok(credential) => credential,
        Err(e) => {
            return Err(e);
        },
    };
    let (bearer_token_tx, token_rx) = token_channel(None);
    let handle = BearerTokenProviderHandle::new(AzureIdentityTokenProvider { token_rx });
    let extension = AzureIdentityAuthExtension { credential, scope: config.scope, bearer_token_tx };
    Ok((extension, handle))
}

/// A token is never refreshed sooner than the shortest time between refreshes.
pub proof fn law_refreshes_keep_their_distance(expires: int, now: int, first: int, second: int)
    ensures
        next_refresh(expires, now, first, second) >= second + MIN_TOKEN_REFRESH_INTERVAL_SECS
            * 1_000_000_000,
{
}

/// After a token was acquired or a request failed, the next request is due no sooner than the
/// shortest time between refreshes behind what the extension's clock reads.
pub proof fn law_due_times_lie_ahead(event: RefreshEvent, due: u128, at: Readings)
    requires
        !(event is Control),
        0 <= at.first() <= MAX_NANOS,
        0 <= at.second() <= MAX_NANOS,
    ensures
        next_step(event, due, at.now(), at.first(), at.second()) matches RefreshStep::WaitUntil(t)
            && t >= at.second() + MIN_TOKEN_REFRESH_INTERVAL_SECS * 1_000_000_000,
{
}

/// After a token was acquired whose lifetime leaves room for it, the next request is due by the
/// fixed buffer before the token expires: `first` and the remaining lifetime are the time of
/// expiry on the extension's clock.
pub proof fn law_next_request_precedes_expiry(token: AccessToken, due: u128, at: Readings)
    requires
        0 <= at.first() <= MAX_NANOS,
        0 <= at.second() <= MAX_NANOS,
        remaining(token.expires_on.nanos(), at.now()) > (TOKEN_EXPIRY_BUFFER_SECS
            + MIN_TOKEN_REFRESH_INTERVAL_SECS) * 1_000_000_000 + (at.second() - at.first()),
    ensures
        next_step(
            RefreshEvent::Acquired(token),
            due,
            at.now(),
            at.first(),
            at.second(),
        ) matches RefreshStep::WaitUntil(t) && t == at.first() + remaining(
            token.expires_on.nanos(),
            at.now(),
        ) - TOKEN_EXPIRY_BUFFER_SECS * 1_000_000_000,
{
}

/// A message that does not end the extension does not shift when the next token is due, whatever
/// the clocks read.
pub proof fn law_other_messages_do_not_shift(signal: ControlSignal, due: u128, at: Readings)
    requires
        !signal.ends(),
    ensures
        next_step(RefreshEvent::Control(signal), due, at.now(), at.first(), at.second())
            == RefreshStep::WaitUntil(due),
{
}

/// A series of events is answered with one broadcast for each token that was acquired, in order,
/// and with no other; so a token is never withdrawn.
pub proof fn law_one_broadcast_per_token(events: Seq<RefreshEvent>)
    ensures
        series_broadcasts(events).len() == acquired(events).len(),
        forall|i: int|
            0 <= i < acquired(events).len() ==> #[trigger] series_broadcasts(events)[i] == Some(
                acquired(events)[i],
            ),
    decreases events.len(),
{
    if events.len() > 0 {
        law_one_broadcast_per_token(events.drop_last());
    }
}

/// A token that is valid for long enough is refreshed by the fixed buffer before it expires.
pub proof fn law_tokens_are_refreshed_before_expiry(
    expires: int,
    now: int,
    first: int,
    second: int,
)
    requires
        remaining(expires, now) >= (TOKEN_EXPIRY_BUFFER_SECS + MIN_TOKEN_REFRESH_INTERVAL_SECS)
            * 1_000_000_000 + (second - first),
    ensures
        next_refresh(expires, now, first, second) == first + remaining(expires, now)
            - TOKEN_EXPIRY_BUFFER_SECS * 1_000_000_000,
{
}

/// A token that has expired, or is about to, is refreshed as soon as refreshes may follow each
/// other.
pub proof fn law_expiring_tokens_are_refreshed_soon(
    expires: int,
    now: int,
    first: int,
    second: int,
)
    requires
        first <= second,
        expires - now <= (TOKEN_EXPIRY_BUFFER_SECS + MIN_TOKEN_REFRESH_INTERVAL_SECS)
            * 1_000_000_000,
    ensures
        next_refresh(expires, now, first, second) == second + MIN_TOKEN_REFRESH_INTERVAL_SECS
            * 1_000_000_000,
{
}

/// A token that expires later is not refreshed sooner.
pub proof fn law_later_expiry_is_not_refreshed_sooner(
    expires: int,
    later: int,
    now: int,
    first: int,
    second: int,
)
    requires
        expires <= later,
    ensures
        next_refresh(expires, now, first, second) <= next_refresh(later, now, first, second),
{
}

/// A read marks nothing as seen: whatever was read from a provider between two subscriptions,
/// both are on one channel and show the same of it as new.
pub proof fn law_reads_mark_nothing_as_seen(
    provider: AzureIdentityTokenProvider,
    before: tokio::sync::watch::Receiver<Option<BearerToken>>,
    answer: Result<BearerToken, BearerTokenError>,
    after: tokio::sync::watch::Receiver<Option<BearerToken>>,
)
    requires
        call_ensures(AzureIdentityTokenProvider::subscribe_token_refresh, (&provider,), before),
        call_ensures(AzureIdentityTokenProvider::get_token, (&provider,), answer),
        call_ensures(AzureIdentityTokenProvider::subscribe_token_refresh, (&provider,), after),
    ensures
        received(before) == received(after),
        seen_up_to(before) == seen_up_to(after),
{
}

/// A consumer only ever gets tokens that were broadcast, or, where the channel was empty, the
/// error that says so.
pub proof fn law_consumers_get_what_was_broadcast(
    handle: BearerTokenProviderHandle,
    extension: AzureIdentityAuthExtension,
    r: Result<(Seq<char>, i64), Seq<char>>,
)
    requires
        reads_from(handle, extension),
        handle.yields(r),
    ensures
        match r {
            Ok(token) => extension.broadcasts().contains(Some(token)),
            Err(message) => extension.broadcasts().contains(None) && message
                == "Azure AD token not yet available"@,
        },
{
}

/// A token that lives for at least 305 seconds longer than the two readings of the clock lie
/// apart is refreshed 295 seconds before it expires; so the refresh always precedes the expiry.
pub proof fn law_refresh_precedes_expiry(
    expires: UtcTime,
    now: UtcTime,
    first: u128,
    second: u128,
    r: u128,
)
    requires
        first <= 18_446_744_073_709_551_615_999_999_999,
        second <= 18_446_744_073_709_551_615_999_999_999,
        call_ensures(next_refresh_at, (&expires, &now, first, second), r),
        expires.nanos() - now.nanos() >= 305_000_000_000 + (second - first),
        expires.nanos() > now.nanos(),
    ensures
        r == first + (expires.nanos() - now.nanos()) - 295_000_000_000,
        r < first + (expires.nanos() - now.nanos()),
{
}

/// A token that lives no longer than that, or has expired, is refreshed ten seconds after the
/// second reading of the clock.
pub proof fn law_refresh_of_an_expiring_token(
    expires: UtcTime,
    now: UtcTime,
    first: u128,
    second: u128,
    r: u128,
)
    requires
        first <= 18_446_744_073_709_551_615_999_999_999,
        second <= 18_446_744_073_709_551_615_999_999_999,
        call_ensures(next_refresh_at, (&expires, &now, first, second), r),
        expires.nanos() - now.nanos() <= 305_000_000_000 + (second - first),
        first <= second + 305_000_000_000,
    ensures
        r == second + 10_000_000_000,
{
}

/// Of two tokens with room before their expiry, the one that expires so much later is refreshed
/// so much later; and a clock that runs so far ahead shows every refresh so much later.
pub proof fn law_refresh_moves_with_the_expiry(
    expires: UtcTime,
    later: UtcTime,
    now: UtcTime,
    first: u128,
    second: u128,
    ahead: u128,
    r: u128,
    s: u128,
)
    requires
        first + ahead <= 18_446_744_073_709_551_615_999_999_999,
        second + ahead <= 18_446_744_073_709_551_615_999_999_999,
        call_ensures(next_refresh_at, (&expires, &now, first, second), r),
        call_ensures(
            next_refresh_at,
            (&later, &now, (first + ahead) as u128, (second + ahead) as u128),
            s,
        ),
        now.nanos() < expires.nanos() <= later.nanos(),
        expires.nanos() - now.nanos() >= 305_000_000_000 + (second - first),
    ensures
        s - r == (later.nanos() - expires.nanos()) + ahead,
{
}

/// After each event the extension does the one thing that is due: it ends on a shutdown and on a
/// closed channel, keeps its time on any other message, comes back ten seconds after a failure,
/// and never sooner after a token than that, nor, where the token lives long enough, later than
/// 295 seconds before its expiry.
pub proof fn law_events_are_answered(
    event: RefreshEvent,
    due: u128,
    now: UtcTime,
    first: u128,
    second: u128,
    r: RefreshStep,
)
    requires
        first <= 18_446_744_073_709_551_615_999_999_999,
        second <= 18_446_744_073_709_551_615_999_999_999,
        call_ensures(refresh_step, (&event, due, &now, first, second), r),
    ensures
        event == RefreshEvent::Control(ControlSignal::Shutdown) ==> r == RefreshStep::Stop,
        event == RefreshEvent::Control(ControlSignal::Closed) ==> r == RefreshStep::Stop,
        event == RefreshEvent::Control(ControlSignal::Other) ==> r == RefreshStep::WaitUntil(due),
        event == RefreshEvent::Failed ==> r == RefreshStep::WaitUntil(
            (second + 10_000_000_000) as u128,
        ),
        event matches RefreshEvent::Acquired(token) ==> {
            let lifetime = token.expires_on.nanos() - now.nanos();
            r matches RefreshStep::WaitUntil(t) && {
                &&& t >= second + 10_000_000_000
                &&& lifetime > 0 ==> t >= first + lifetime - 295_000_000_000
                &&& t > second + 10_000_000_000 ==> t <= first + lifetime - 295_000_000_000
                    || lifetime <= 0
                &&& lifetime <= 0 && first <= second + 305_000_000_000 ==> t == second
                    + 10_000_000_000
            }
        },
{
}

/// Consumers get exactly the characters of the access token, whatever its length, and its expiry
/// in whole seconds, rounded down.
pub proof fn law_consumers_get_the_whole_token(token: AccessToken, r: BearerToken)
    requires
        call_ensures(bearer_token, (&token,), r),
    ensures
        r.token@ == token.token@,
        r.token@.len() == token.token@.len(),
        r.expires_on * 1_000_000_000 <= token.expires_on.nanos() < (r.expires_on + 1)
            * 1_000_000_000,
{
}

/// Two access tokens with different characters never become one bearer token.
pub proof fn law_tokens_stay_apart(a: AccessToken, b: AccessToken, r: BearerToken, s: BearerToken)
    requires
        call_ensures(bearer_token, (&a,), r),
        call_ensures(bearer_token, (&b,), s),
    ensures
        r.token@ == s.token@ <==> a.token@ == b.token@,
{
}

/// What is broadcast for an acquired token is the whole token with its expiry in whole seconds,
/// once; on any other event nothing is.
pub proof fn law_broadcast_is_the_whole_token(event: RefreshEvent)
    ensures
        match event {
            RefreshEvent::Acquired(token) => {
                &&& event_broadcasts(event).len() == 1
                &&& event_broadcasts(event)[0] matches Some((text, expires_on)) && text
                    == token.token@ && expires_on == (token.expires_on.nanos() / 1_000_000_000) as i64
            },
            _ => event_broadcasts(event).len() == 0,
        },
{
}

/// In a series of events each acquired token adds its own text at the end of what was broadcast,
/// and everything before it stays.
pub proof fn law_broadcasts_only_grow(events: Seq<RefreshEvent>, event: RefreshEvent)
    ensures
        match event {
            RefreshEvent::Acquired(token) => {
                &&& series_broadcasts(events.push(event)).drop_last() == series_broadcasts(events)
                &&& series_broadcasts(events.push(event)).len() == series_broadcasts(events).len()
                    + 1
                &&& series_broadcasts(events.push(event)).last() matches Some((text, _)) && text
                    == token.token@
            },
            _ => series_broadcasts(events.push(event)) == series_broadcasts(events),
        },
{
    let all = events.push(event);
    assert(all.drop_last() =~= events);
    assert(all.last() == event);
    let before = series_broadcasts(events);
    assert(series_broadcasts(all) == before + event_broadcasts(event));
    if let RefreshEvent::Acquired(_) = event {
        assert((before + event_broadcasts(event)).drop_last() =~= before);
    } else {
        assert(before + event_broadcasts(event) =~= before);
    }
}

/// Where a managed identity is configured, with or without a client ID, a credential that comes
/// back is a managed identity, built for the configured client ID, or for the system-assigned
/// identity where none is configured. Where developer tools are configured they come back,
/// whatever the client ID.
pub proof fn law_credential_is_the_configured_one(
    config: Config,
    r: Result<Credential, ConfigError>,
)
    requires
        call_ensures(create_credential, (&config,), r),
    ensures
        config.method == AuthMethod::Development ==> (r matches Ok(c) && c is DeveloperTools),
        config.method == AuthMethod::ManagedIdentity && r is Ok ==> (r matches Ok(
            Credential::ManagedIdentity { client_id, identity },
        ) && client_id == config.client_id && match config.client_id {
            None => built_for(*identity) is None,
            Some(id) => built_for(*identity) == Some(id@),
        }),
{
}

/// A credential that cannot be had is told with the text of the error with which the attempt for
/// the configured identity failed.
pub proof fn law_credential_failure_is_told(config: Config, r: Result<Credential, ConfigError>)
    requires
        call_ensures(create_credential, (&config,), r),
        r is Err,
    ensures
        config.method == AuthMethod::ManagedIdentity,
        exists|cause: azure_core::Error| #[trigger]
            refused(config.client_id, cause) && (r matches Err(
                ConfigError::InvalidUserConfig { error },
            ) && error@ == "Failed to create managed identity credential: "@ + error_display(
                cause,
            )),
{
    let e = r->Err_0;
    let cause = choose|cause: azure_core::Error|
        refused(config.client_id, cause) && #[trigger] is_credential_error(
            e,
            AuthMethod::ManagedIdentity,
            cause,
        );
    assert(refused(config.client_id, cause));
}

/// An attempt's credential is handed on as it is; its error becomes a text that names the method
/// and ends in the error's own text.
pub proof fn law_attempts_are_handed_on(
    method: AuthMethod,
    made: Result<Credential, azure_core::Error>,
    r: Result<Credential, ConfigError>,
)
    requires
        call_ensures(credential_result, (method, made), r),
    ensures
        made matches Ok(credential) ==> r == Ok::<Credential, ConfigError>(credential),
        made matches Err(cause) ==> (r matches Err(ConfigError::InvalidUserConfig { error })
            && error@ == match method {
            AuthMethod::ManagedIdentity => "Failed to create managed identity credential: "@,
            AuthMethod::Development => "Failed to create developer tools credential: "@,
        } + error_display(cause)),
{
}

/// The error for a credential keeps the whole detail behind the method's own words.
pub proof fn law_failure_details_are_kept(method: AuthMethod, detail: &str, r: ConfigError)
    requires
        call_ensures(credential_error, (method, detail), r),
    ensures
        r matches ConfigError::InvalidUserConfig { error } && error@ == match method {
            AuthMethod::ManagedIdentity => "Failed to create managed identity credential: "@,
            AuthMethod::Development => "Failed to create developer tools credential: "@,
        } + detail@,
{
}

/// An extension is created for every scope but the empty one, as far as its credential can be
/// had; it asks for that scope with that credential, has broadcast nothing, and its handle only
/// gives what the extension broadcasts, or the error that there is no token yet.
pub proof fn law_created_extension(
    config: Config,
    r: Result<(AzureIdentityAuthExtension, BearerTokenProviderHandle), ConfigError>,
)
    requires
        call_ensures(create, (config,), r),
    ensures
        config.scope@.len() == 0 ==> (r matches Err(ConfigError::InvalidUserConfig { error })
            && error@ == "auth scope must be non-empty"@),
        config.scope@.len() > 0 && config.method == AuthMethod::Development ==> (r matches Ok(
            (extension, _),
        ) && extension.requests_with() is DeveloperTools),
        config.scope@.len() > 0 && config.method == AuthMethod::ManagedIdentity ==> (r matches Ok(
            (extension, _),
        ) ==> (extension.requests_with() matches Credential::ManagedIdentity { client_id, identity }
            && client_id == config.client_id && match config.client_id {
            None => built_for(*identity) is None,
            Some(id) => built_for(*identity) == Some(id@),
        })),
        r matches Ok((extension, handle)) ==> {
            &&& extension.requests_for() == config.scope@
            &&& extension.broadcast_so_far().len() == 0
            &&& forall|token: (Seq<char>, i64)| #[trigger]
                handle.yields(Ok(token)) <==> extension.broadcasts().contains(Some(token))
            &&& forall|message: Seq<char>| #[trigger]
                handle.yields(Err(message)) <==> extension.broadcasts().contains(None) && message
                    == "Azure AD token not yet available"@
            &&& forall|held: Set<Option<(Seq<char>, i64)>>| #[trigger]
                handle.announces(held) ==> held == extension.broadcasts()
        },
{
    if let Ok((extension, handle)) = r {
        let held = extension.broadcasts();
        let missing = "Azure AD token not yet available"@;
        assert forall|token: (Seq<char>, i64)| #[trigger]
            handle.yields(Ok(token)) <==> held.contains(Some(token)) by {
            if held.contains(Some(token)) {
                assert(answers_from(held, missing, Ok(token)));
            }
        }
        assert forall|message: Seq<char>| #[trigger]
            handle.yields(Err(message)) <==> held.contains(None) && message == missing by {
            if held.contains(None) && message == missing {
                assert(answers_from(held, missing, Err(message)));
            }
        }
    }
}

/// The time to a refresh is told in hours, minutes below sixty and seconds below sixty that add
/// up to it.
pub proof fn law_countdown_adds_up(seconds: u64, r: String) -> (parts: (nat, nat, nat))
    requires
        call_ensures(countdown, (seconds,), r),
    ensures
        seconds == 3600 * parts.0 + 60 * parts.1 + parts.2,
        parts.1 < 60,
        parts.2 < 60,
        r@ == decimal_text(parts.0) + "h "@ + decimal_text(parts.1) + "m "@ + decimal_text(parts.2)
            + "s"@,
{
    let n = seconds as nat;
    (n / 3600, (n % 3600) / 60, n % 60)
}

/// A clock reads how much later an instant lies than its start, and nothing before that.
pub proof fn law_clock_reads_the_difference(
    clock: RefreshClock,
    at: tokio::time::Instant,
    r: u128,
)
    requires
        call_ensures(RefreshClock::reading_at, (&clock, &at), r),
    ensures
        instant_nanos(at) >= instant_nanos(clock.started()) ==> instant_nanos(clock.started()) + r
            == instant_nanos(at),
        instant_nanos(at) < instant_nanos(clock.started()) ==> r == 0,
{
}

/// The next refresh of a token is by its own expiry, for a time of day that was told and readings
/// of the given clock: 295 seconds before the expiry, or ten seconds from the second reading.
pub proof fn law_token_is_refreshed_by_its_expiry(
    token: AccessToken,
    clock: RefreshClock,
    r: u128,
) -> (found: (int, int, int))
    requires
        call_ensures(get_next_token_refresh, (&token, &clock), r),
    ensures
        told(found.0),
        clock.has_read(found.1),
        clock.has_read(found.2),
        r >= found.2 + 10_000_000_000,
        token.expires_on.nanos() > found.0 ==> r >= found.1 + (token.expires_on.nanos() - found.0)
            - 295_000_000_000,
        r == found.2 + 10_000_000_000 || r == found.1 - 295_000_000_000 || r == found.1 + (
        token.expires_on.nanos() - found.0) - 295_000_000_000,
        r == found.1 - 295_000_000_000 && r != found.2 + 10_000_000_000
            ==> token.expires_on.nanos() <= found.0,
{
    let expires = token.expires_on.nanos();
    let (now, first, second) = choose|now: int, first: int, second: int|
        told(now) && clock.has_read(first) && clock.has_read(second) && r
            == #[trigger] next_refresh(expires, now, first, second);
    (now, first, second)
}

/// The provider gives what a look at its receiver showed: that very token, or, where there was
/// none, the error that says so.
pub proof fn law_provider_gives_what_was_shown(
    provider: AzureIdentityTokenProvider,
    r: Result<BearerToken, BearerTokenError>,
)
    requires
        call_ensures(AzureIdentityTokenProvider::get_token, (&provider,), r),
    ensures
        r matches Ok(token) ==> has_shown(
            provider.token_rx,
            Some((token.token@, token.expires_on)),
        ),
        r matches Err(e) ==> has_shown(provider.token_rx, None) && e.message@
            == "Azure AD token not yet available"@,
{
}

/// A failed request is repeated ten seconds later.
pub proof fn law_failures_wait_ten_seconds(now: u128, r: u128)
    requires
        now <= 18_446_744_073_709_551_615_999_999_999,
        call_ensures(retry_at, (now,), r),
    ensures
        r - now == 10_000_000_000,
{
}

/// A clock is started at an instant that was measured, and its reading is how much later another
/// measured instant lies.
proof fn law_clocks_are_measured(clock: RefreshClock, r: u128) -> (at: tokio::time::Instant)
    requires
        call_ensures(RefreshClock::start, (), clock),
        call_ensures(RefreshClock::now, (&clock,), r),
    ensures
        call_ensures(instant_now, (), clock.started()),
        call_ensures(instant_now, (), at),
        instant_nanos(at) >= instant_nanos(clock.started()) ==> instant_nanos(clock.started()) + r
            == instant_nanos(at),
        instant_nanos(at) < instant_nanos(clock.started()) ==> r == 0,
{
    choose|at: tokio::time::Instant| measured(at) && r == #[trigger] clock.reading(at)
}

/// Readings are those of a time of day that was told, and of two instants that were measured.
proof fn law_readings_are_taken(clock: RefreshClock, r: Readings) -> (found: (
    (i64, u32),
    tokio::time::Instant,
    tokio::time::Instant,
))
    requires
        call_ensures(RefreshClock::read, (&clock,), r),
    ensures
        call_ensures(utc_now, (), found.0),
        r.now() == found.0.0 * 1_000_000_000 + found.0.1,
        call_ensures(instant_now, (), found.1),
        call_ensures(instant_now, (), found.2),
        instant_nanos(found.1) >= instant_nanos(clock.started()) ==> r.first() == instant_nanos(
            found.1,
        ) - instant_nanos(clock.started()),
        instant_nanos(found.1) < instant_nanos(clock.started()) ==> r.first() == 0,
        instant_nanos(found.2) >= instant_nanos(clock.started()) ==> r.second() == instant_nanos(
            found.2,
        ) - instant_nanos(clock.started()),
        instant_nanos(found.2) < instant_nanos(clock.started()) ==> r.second() == 0,
{
    let (seconds, nanosecond) = choose|seconds: i64, nanosecond: u32| #[trigger]
        call_ensures(utc_now, (), (seconds, nanosecond)) && r.now() == seconds * 1_000_000_000
            + nanosecond;
    let a = choose|at: tokio::time::Instant|
        measured(at) && r.first() == #[trigger] clock.reading(at);
    let b = choose|at: tokio::time::Instant|
        measured(at) && r.second() == #[trigger] clock.reading(at);
    ((seconds, nanosecond), a, b)
}

/// A credential is refused with the error that the attempt for the configured client ID gave.
proof fn law_refusals_come_from_the_attempt(
    config: Config,
    r: Result<Credential, ConfigError>,
) -> (cause: azure_core::Error)
    requires
        call_ensures(create_credential, (&config,), r),
        r is Err,
    ensures
        call_ensures(managed_identity, (config.client_id,), Err(cause)),
        r matches Err(ConfigError::InvalidUserConfig { error }) && error@
            == "Failed to create managed identity credential: "@ + error_display(cause),
{
    let e = r->Err_0;
    choose|cause: azure_core::Error|
        refused(config.client_id, cause) && #[trigger] is_credential_error(
            e,
            AuthMethod::ManagedIdentity,
            cause,
        )
}

} // verus!
