use azure_core::time::OffsetDateTime;
use otap_dataflow::azure_identity_auth::{
    bearer_token, countdown, create, create_credential, credential_error, credential_result,
    default_scope, get_next_token_refresh, next_refresh_at, refresh_step, retry_at, AccessToken,
    AuthMethod, AzureIdentityTokenProvider, Config, ConfigError, Credential, Readings,
    RefreshClock, RefreshEvent, RefreshStep, UtcTime, AZURE_IDENTITY_AUTH_URN,
    MIN_TOKEN_REFRESH_INTERVAL_SECS,
};
use otap_dataflow::bearer_token::{BearerToken, BearerTokenProvider, BearerTokenProviderHandle};
use otap_dataflow::control::ControlSignal;
use tokio::sync::watch;

const SECOND: u128 = 1_000_000_000;

fn utc(time: OffsetDateTime) -> UtcTime {
    UtcTime::from_unix(time.unix_timestamp(), time.nanosecond())
}

fn config(method: AuthMethod, scope: &str) -> Config {
    Config { method, client_id: None, scope: scope.to_string() }
}

fn description(error: ConfigError) -> String {
    match error {
        ConfigError::InvalidUserConfig { error } => error,
    }
}

#[test]
fn test_urn_constant() {
    assert_eq!(AZURE_IDENTITY_AUTH_URN, "urn:microsoft:extension:azure_identity_auth");
}

#[test]
fn test_get_next_token_refresh_far_future() {
    let now = OffsetDateTime::now_utc();
    let expires_on = now + azure_core::time::Duration::seconds(3600);
    let token = AccessToken { token: "secret".into(), expires_on: utc(expires_on) };

    let clock = RefreshClock::start();
    let refresh_at = get_next_token_refresh(&token, &clock);
    let duration_until_refresh = refresh_at - clock.now();

    // Should be ~3600 - 295 = 3305 seconds
    let expected = 3305.0;
    let actual = duration_until_refresh as f64 / SECOND as f64;
    assert!((actual - expected).abs() < 5.0, "Expected ~{expected}, got {actual}");
}

#[test]
fn test_get_next_token_refresh_already_expired() {
    let now = OffsetDateTime::now_utc();
    let expires_on = now - azure_core::time::Duration::seconds(100);
    let token = AccessToken { token: "expired".into(), expires_on: utc(expires_on) };

    let clock = RefreshClock::start();
    let refresh_at = get_next_token_refresh(&token, &clock);
    let delay = refresh_at - clock.now();

    // Should be at least MIN_TOKEN_REFRESH_INTERVAL_SECS
    assert!((delay / SECOND) as u64 >= MIN_TOKEN_REFRESH_INTERVAL_SECS - 1);
}

#[test]
fn test_token_provider_returns_error_before_refresh() {
    let (_tx, rx) = watch::channel(None);
    let provider = AzureIdentityTokenProvider { token_rx: rx };

    let err = provider.get_token().unwrap_err();
    assert!(err.message.contains("not yet available"));
}

#[test]
fn test_token_provider_returns_cached_token() {
    let token = BearerToken::new("azure-token", 1_700_000_000);
    let (_tx, rx) = watch::channel(Some(token));
    let provider = AzureIdentityTokenProvider { token_rx: rx };

    let result = provider.get_token().unwrap();
    assert_eq!(result.token.secret(), "azure-token");
    assert_eq!(result.expires_on, 1_700_000_000);
}

#[test]
fn test_token_provider_sees_updates() {
    let (tx, rx) = watch::channel(None);
    let provider = AzureIdentityTokenProvider { token_rx: rx };

    assert!(provider.get_token().is_err());

    let _ = tx.send(Some(BearerToken::new("v1", 100)));
    let t = provider.get_token().unwrap();
    assert_eq!(t.token.secret(), "v1");

    let _ = tx.send(Some(BearerToken::new("v2", 200)));
    let t = provider.get_token().unwrap();
    assert_eq!(t.token.secret(), "v2");
}

#[test]
fn test_token_provider_subscribe_receives_updates() {
    let runtime = tokio::runtime::Builder::new_current_thread().build().unwrap();
    runtime.block_on(async {
        let (tx, rx) = watch::channel(None);
        let provider = AzureIdentityTokenProvider { token_rx: rx };

        let mut sub = provider.subscribe_token_refresh();
        let _ = tx.send(Some(BearerToken::new("refreshed", 300)));
        sub.changed().await.unwrap();

        let token = sub.borrow().clone().unwrap();
        assert_eq!(token.token.secret(), "refreshed");
        assert_eq!(token.expires_on, 300);
    });
}

#[test]
fn test_token_provider_handle_wraps_correctly() {
    let (tx, rx) = watch::channel(None);
    let provider = AzureIdentityTokenProvider { token_rx: rx };
    let handle = BearerTokenProviderHandle::new(provider);

    assert!(handle.get_token().is_err());

    let _ = tx.send(Some(BearerToken::new("wrapped", 42)));
    let token = handle.get_token().unwrap();
    assert_eq!(token.token.secret(), "wrapped");
}

#[test]
fn missing_token_has_the_azure_message() {
    let (_tx, rx) = watch::channel(None);
    let provider = AzureIdentityTokenProvider { token_rx: rx };
    assert_eq!(provider.get_token().unwrap_err().message, "Azure AD token not yet available");
}

#[test]
fn refresh_is_the_buffer_before_expiry() {
    let now = UtcTime::from_unix(1_000, 0);
    let expires = UtcTime::from_unix(4_600, 500);
    let at = next_refresh_at(&expires, &now, 7 * SECOND, 7 * SECOND + 3);
    assert_eq!(at, 7 * SECOND + 3_305 * SECOND + 500);
}

#[test]
fn refresh_keeps_its_distance() {
    let now = UtcTime::from_unix(1_000, 0);
    let distance = 10 * SECOND;
    for expires in [0, 999, 1_000, 1_001, 1_295, 1_305] {
        let expires = UtcTime::from_unix(expires, 0);
        assert_eq!(next_refresh_at(&expires, &now, 4, 9), 9 + distance);
    }
    let expires = UtcTime::from_unix(1_306, 0);
    assert_eq!(next_refresh_at(&expires, &now, 4, 9), 4 + 11 * SECOND);
    let never = UtcTime::from_unix(i64::MAX, 999_999_999);
    let early = UtcTime::from_unix(i64::MIN, 0);
    assert_eq!(next_refresh_at(&early, &never, 0, 0), distance);
    assert_eq!(
        next_refresh_at(&never, &early, 0, 0),
        (u64::MAX as u128) * SECOND + 999_999_999 - 295 * SECOND
    );
}

#[test]
fn bearer_token_expires_at_whole_seconds() {
    let access = AccessToken { token: "t".into(), expires_on: UtcTime::from_unix(12, 999_999_999) };
    let bearer = bearer_token(&access);
    assert_eq!((bearer.token.secret(), bearer.expires_on), ("t", 12));
    let past = AccessToken { token: "t".into(), expires_on: UtcTime::from_unix(-2, 1) };
    assert_eq!(bearer_token(&past).expires_on, -2);
}

#[test]
fn clock_counts_from_its_start() {
    let before = tokio::time::Instant::now();
    let clock = RefreshClock::start();
    assert!(clock.origin() >= before);
    let first = clock.now();
    let second = clock.now();
    assert!(first <= second);
    assert!(second < 60 * SECOND);
}

#[test]
fn clock_reads_the_nanoseconds_since_its_start() {
    let origin = tokio::time::Instant::now() + std::time::Duration::from_secs(60);
    let clock = RefreshClock::starting_at(origin);
    assert_eq!(clock.origin(), origin);
    assert_eq!(clock.reading_at(&origin), 0);
    let later = origin + std::time::Duration::new(5, 7);
    assert_eq!(clock.reading_at(&later), 5 * SECOND + 7);
    let earlier = origin - std::time::Duration::from_secs(1);
    assert_eq!(clock.reading_at(&earlier), 0);
    assert_eq!(RefreshClock::starting_at(earlier).reading_at(&later), 6 * SECOND + 7);
}

#[test]
fn defaults_are_managed_identity_and_monitor_scope() {
    assert_eq!(AuthMethod::default(), AuthMethod::ManagedIdentity);
    assert_eq!(default_scope(), "https://monitor.azure.com/.default");
}

#[test]
fn empty_scope_is_refused() {
    let error = match create(config(AuthMethod::Development, "")) {
        Ok(_) => panic!("must be refused"),
        Err(error) => error,
    };
    assert_eq!(description(error), "auth scope must be non-empty");
}

#[test]
fn development_uses_developer_tools() {
    let credential = create_credential(&config(AuthMethod::Development, "s"));
    assert!(matches!(credential, Ok(Credential::DeveloperTools { .. })));
}

#[test]
fn managed_identity_keeps_the_client_id() {
    let mut asked = config(AuthMethod::ManagedIdentity, "s");
    asked.client_id = Some("00000000-0000-0000-0000-000000000001".to_string());
    match create_credential(&asked) {
        Ok(Credential::ManagedIdentity { client_id, .. }) => assert_eq!(client_id, asked.client_id),
        Ok(Credential::DeveloperTools { .. }) => panic!("must be a managed identity"),
        Err(error) => {
            assert!(description(error).starts_with("Failed to create managed identity credential: "));
        }
    }
}

#[test]
fn an_outside_error_is_told_with_its_text() {
    let kind = azure_core::error::ErrorKind::Credential;
    let cause = azure_core::Error::with_message(kind, "no such source");
    match credential_result(AuthMethod::ManagedIdentity, Err(cause)) {
        Ok(_) => panic!("must fail"),
        Err(error) => assert_eq!(
            description(error),
            "Failed to create managed identity credential: no such source"
        ),
    }
    let made = create_credential(&config(AuthMethod::Development, "s")).ok().unwrap();
    let kept = credential_result(AuthMethod::Development, Ok(made));
    assert!(matches!(kept, Ok(Credential::DeveloperTools { .. })));
}

#[test]
fn a_failed_request_is_repeated_ten_seconds_later() {
    assert_eq!(retry_at(0), 10 * SECOND);
    assert_eq!(retry_at(7), 10 * SECOND + 7);
}

#[test]
fn each_token_is_broadcast_once() {
    let (mut extension, handle) = match create(config(AuthMethod::Development, "s")) {
        Ok(created) => created,
        Err(_) => panic!("developer tools need nothing"),
    };
    let clock = RefreshClock::start();
    let mut seen = handle.subscribe_token_refresh();
    for (text, seconds) in [("v1", 100), ("v2", 200)] {
        let expires_on = UtcTime::from_unix(seconds, 0);
        let token = AccessToken { token: text.into(), expires_on };
        let _ = extension.on_event(0, RefreshEvent::Acquired(token), &clock.read());
        assert!(seen.has_changed().unwrap());
        let shown = seen.borrow_and_update().clone().unwrap();
        assert_eq!((shown.token.secret(), shown.expires_on), (text, seconds));
        let _ = extension.on_event(0, RefreshEvent::Failed, &clock.read());
        let _ = extension.on_event(0, RefreshEvent::Control(ControlSignal::Other), &clock.read());
        assert!(!seen.has_changed().unwrap());
        assert_eq!(handle.get_token().unwrap().token.secret(), text);
    }
}

#[test]
fn due_times_are_on_the_given_clock() {
    let (mut extension, _handle) = match create(config(AuthMethod::Development, "s")) {
        Ok(created) => created,
        Err(_) => panic!("developer tools need nothing"),
    };
    let hour = std::time::Duration::from_secs(3600);
    let clock = RefreshClock::starting_at(tokio::time::Instant::now() - hour);
    match extension.on_event(0, RefreshEvent::Failed, &clock.read()) {
        RefreshStep::WaitUntil(at) => assert!(at >= 3610 * SECOND && at < 3670 * SECOND),
        RefreshStep::Stop => panic!("must go on"),
    }
    let expired = AccessToken { token: "t".into(), expires_on: UtcTime::from_unix(0, 0) };
    let at = get_next_token_refresh(&expired, &clock);
    assert!(at >= 3610 * SECOND && at < 3670 * SECOND);
}

#[test]
fn steps_are_exact_for_given_readings() {
    let now = UtcTime::from_unix(1_000, 0);
    let (first, second) = (7 * SECOND, 7 * SECOND + 3);
    let step = |event: &RefreshEvent| refresh_step(event, 99, &now, first, second);
    let signal = |signal| RefreshEvent::Control(signal);
    assert_eq!(step(&signal(ControlSignal::Shutdown)), RefreshStep::Stop);
    assert_eq!(step(&signal(ControlSignal::Closed)), RefreshStep::Stop);
    assert_eq!(step(&signal(ControlSignal::Other)), RefreshStep::WaitUntil(99));
    assert_eq!(step(&RefreshEvent::Failed), RefreshStep::WaitUntil(17 * SECOND + 3));
    for (expires, due) in [(4_600, 3_312 * SECOND), (1_306, 18 * SECOND), (900, 17 * SECOND + 3)] {
        let expires_on = UtcTime::from_unix(expires, 0);
        let event = RefreshEvent::Acquired(AccessToken { token: "t".into(), expires_on });
        assert_eq!(step(&event), RefreshStep::WaitUntil(due));
        let mut extension = match create(config(AuthMethod::Development, "s")) {
            Ok((extension, _)) => extension,
            Err(_) => panic!("developer tools need nothing"),
        };
        let at = Readings::of(now, first, second);
        assert_eq!(extension.on_event(99, event, &at), RefreshStep::WaitUntil(due));
    }
}

#[test]
fn time_to_the_refresh_is_told_in_parts() {
    assert_eq!(countdown(0), "0h 0m 0s");
    assert_eq!(countdown(59), "0h 0m 59s");
    assert_eq!(countdown(3_305), "0h 55m 5s");
    assert_eq!(countdown(3_600 * 25 + 61), "25h 1m 1s");
}

#[test]
fn a_read_leaves_the_value_new_to_subscribers() {
    let (tx, rx) = watch::channel(None);
    let provider = AzureIdentityTokenProvider { token_rx: rx };
    let before = provider.subscribe_token_refresh();
    let _ = tx.send(Some(BearerToken::new("v1", 100)));
    assert_eq!(provider.get_token().unwrap().token.secret(), "v1");
    assert_eq!(provider.get_token().unwrap().token.secret(), "v1");
    assert!(before.has_changed().unwrap());
    assert!(provider.subscribe_token_refresh().has_changed().unwrap());
}

#[test]
fn credential_failures_say_which_credential() {
    assert_eq!(
        description(credential_error(AuthMethod::ManagedIdentity, "why")),
        "Failed to create managed identity credential: why"
    );
    assert_eq!(
        description(credential_error(AuthMethod::Development, "why")),
        "Failed to create developer tools credential: why"
    );
}

#[test]
fn test_extension_refreshes_token() {
    let scope = "https://monitor.azure.com/.default";
    let (mut extension, handle) = match create(config(AuthMethod::Development, scope)) {
        Ok(created) => created,
        Err(_) => panic!("developer tools need nothing"),
    };
    assert_eq!(extension.scope(), scope);
    assert!(matches!(extension.credential(), Credential::DeveloperTools { .. }));
    assert!(handle.get_token().is_err());
    assert_eq!(extension.begin(), RefreshStep::WaitUntil(0));

    let clock = RefreshClock::start();
    let expires = OffsetDateTime::now_utc() + azure_core::time::Duration::seconds(3600);
    let token = AccessToken { token: "my-azure-token".into(), expires_on: utc(expires) };
    let step = extension.on_event(0, RefreshEvent::Acquired(token), &clock.read());
    match step {
        RefreshStep::WaitUntil(at) => {
            assert!(at > 3_300 * SECOND && at < 3_310 * SECOND);
        }
        RefreshStep::Stop => panic!("must go on"),
    }
    let cached = handle.get_token().unwrap();
    assert_eq!(cached.token.secret(), "my-azure-token");
    assert_eq!(cached.expires_on, expires.unix_timestamp());

    let other = extension.on_event(77, RefreshEvent::Control(ControlSignal::Other), &clock.read());
    assert_eq!(other, RefreshStep::WaitUntil(77));
    let stop = extension.on_event(77, RefreshEvent::Control(ControlSignal::Shutdown), &clock.read());
    assert_eq!(stop, RefreshStep::Stop);
    let closed = extension.on_event(77, RefreshEvent::Control(ControlSignal::Closed), &clock.read());
    assert_eq!(closed, RefreshStep::Stop);
    match extension.on_event(77, RefreshEvent::Failed, &clock.read()) {
        RefreshStep::WaitUntil(at) => {
            assert!(at >= 10 * SECOND && at < 60 * SECOND);
        }
        RefreshStep::Stop => panic!("must go on"),
    }
    // The last token stays.
    assert_eq!(handle.get_token().unwrap().token.secret(), "my-azure-token");
}

#[test]
fn configuration_is_cloned_whole() {
    let original = Config {
        method: AuthMethod::Development,
        client_id: Some("id".to_string()),
        scope: "s".to_string(),
    };
    let copy = original.clone();
    assert_eq!(copy.method, AuthMethod::Development);
    assert_eq!(copy.client_id.as_deref(), Some("id"));
    assert_eq!(copy.scope, "s");
}
