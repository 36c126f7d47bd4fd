use otap_dataflow::bearer_token::{
    token_or, BearerToken, BearerTokenError, BearerTokenProvider, BearerTokenProviderHandle, Secret,
};
use tokio::sync::watch;

/// A provider on a watch channel.
struct WatchTokenProvider {
    token_rx: watch::Receiver<Option<BearerToken>>,
}

impl BearerTokenProvider for WatchTokenProvider {
    fn get_token(&self) -> Result<BearerToken, BearerTokenError> {
        self.token_rx.borrow().clone().ok_or(BearerTokenError {
            message: "token not yet available".into(),
        })
    }

    fn subscribe_token_refresh(&self) -> watch::Receiver<Option<BearerToken>> {
        self.token_rx.clone()
    }
}

#[test]
fn get_token_returns_error_when_empty() {
    let (_tx, rx) = watch::channel(None);
    let handle = BearerTokenProviderHandle::new(WatchTokenProvider { token_rx: rx });

    let err = handle.get_token().unwrap_err();
    assert!(err.message.contains("not yet available"));
}

#[test]
fn get_token_returns_cached_value() {
    let (_tx, rx) = watch::channel(Some(BearerToken::new("my-token", 1_700_000_000)));
    let handle = BearerTokenProviderHandle::new(WatchTokenProvider { token_rx: rx });

    let token = handle.get_token().unwrap();
    assert_eq!(token.token.secret(), "my-token");
    assert_eq!(token.expires_on, 1_700_000_000);
}

#[test]
fn get_token_sees_updates() {
    let (tx, rx) = watch::channel(None);
    let handle = BearerTokenProviderHandle::new(WatchTokenProvider { token_rx: rx });

    assert!(handle.get_token().is_err());

    let _ = tx.send(Some(BearerToken::new("v1", 100)));
    let token = handle.get_token().unwrap();
    assert_eq!(token.token.secret(), "v1");

    let _ = tx.send(Some(BearerToken::new("v2", 200)));
    let token = handle.get_token().unwrap();
    assert_eq!(token.token.secret(), "v2");
}

#[test]
fn subscribe_receives_updates() {
    let runtime = tokio::runtime::Builder::new_current_thread().build().unwrap();
    runtime.block_on(async {
        let (tx, rx) = watch::channel(None);
        let handle = BearerTokenProviderHandle::new(WatchTokenProvider { token_rx: rx });

        let mut sub_rx = handle.subscribe_token_refresh();

        let _ = tx.send(Some(BearerToken::new("refreshed", 200)));
        sub_rx.changed().await.unwrap();

        let refreshed = sub_rx.borrow().clone().unwrap();
        assert_eq!(refreshed.token.secret(), "refreshed");
        assert_eq!(refreshed.expires_on, 200);
    });
}

#[test]
fn secret_debug_does_not_leak() {
    let s = Secret::new("super-secret-value");
    assert_eq!(format!("{:?}", s), "Secret");
}

#[test]
fn secret_equality() {
    let a = Secret::new("same");
    let b = Secret::new("same");
    let c = Secret::new("different");
    assert_eq!(a, b);
    assert_ne!(a, c);
}

#[test]
fn bearer_token_from_string() {
    let token = BearerToken::new("my-token".to_string(), 42);
    assert_eq!(token.token.secret(), "my-token");
    assert_eq!(token.expires_on, 42);
}

#[test]
fn secrets_compare_by_value_however_they_are_held() {
    let owned: Secret = String::from("value").into();
    let borrowed: Secret = "value".into();
    assert_eq!(owned, borrowed);
    assert_eq!(owned.clone(), borrowed.clone());
    assert_eq!(owned.clone().secret(), "value");
    assert_eq!(borrowed.clone().secret(), "value");
}

#[test]
fn debug_of_a_token_does_not_leak_either() {
    let token = BearerToken::new("super-secret-value", 7);
    let shown = format!("{:?}", token);
    assert_eq!(shown, "BearerToken { token: Secret, expires_on: 7 }");
    let other = BearerToken::new("x", 7);
    assert_eq!(format!("{:?}", other), shown);
    let past = BearerToken::new("x", -7);
    assert_eq!(format!("{:?}", past), "BearerToken { token: Secret, expires_on: -7 }");
    assert_eq!(
        format!("{:5?} {:+?} {:03x?}", token, token, BearerToken::new("x", 42)),
        "BearerToken { token: Secret, expires_on:     7 } \
         BearerToken { token: Secret, expires_on: +7 } \
         BearerToken { token: Secret, expires_on: 02a }"
    );
    assert_eq!(
        format!("{:#x?}", BearerToken::new("x", 42)),
        "BearerToken {\n    token: Secret,\n    expires_on: 0x2a,\n}"
    );
    assert_eq!(
        format!("{:#?}", Some(token)),
        "Some(\n    BearerToken {\n        token: Secret,\n        expires_on: 7,\n    },\n)"
    );
}

#[test]
fn error_is_displayed_with_its_message() {
    let error = BearerTokenError { message: "no luck".to_string() };
    assert_eq!(error.to_string(), "bearer token error: no luck");
    assert_eq!(error.clone().message, "no luck");
    let _: &dyn std::error::Error = &error;
}

#[test]
fn handle_debug_names_the_handle() {
    let (_tx, rx) = watch::channel(None);
    let handle = BearerTokenProviderHandle::new(WatchTokenProvider { token_rx: rx });
    assert_eq!(format!("{:?}", handle), "BearerTokenProviderHandle");
}

#[test]
fn clones_of_a_handle_share_the_provider() {
    let (tx, rx) = watch::channel(None);
    let first = BearerTokenProviderHandle::new(WatchTokenProvider { token_rx: rx });
    let second = first.clone();
    let _ = tx.send(Some(BearerToken::new("shared", 1)));
    assert_eq!(first.get_token().unwrap().token.secret(), "shared");
    assert_eq!(second.get_token().unwrap().token.secret(), "shared");
}

/// A provider that threads cannot share: it counts its calls in a cell.
struct CountingProvider {
    calls: std::cell::Cell<i64>,
}

impl BearerTokenProvider for CountingProvider {
    fn get_token(&self) -> Result<BearerToken, BearerTokenError> {
        self.calls.set(self.calls.get() + 1);
        Ok(BearerToken::new("counted", self.calls.get()))
    }

    fn subscribe_token_refresh(&self) -> watch::Receiver<Option<BearerToken>> {
        watch::channel(Some(BearerToken::new("shown", self.calls.get()))).1
    }
}

#[test]
fn a_handle_is_shared_between_threads() {
    fn shared<T: Send + Sync + Clone>(_: &T) {}
    let handle = BearerTokenProviderHandle::new(CountingProvider { calls: 0.into() });
    shared(&handle);
}

#[test]
fn each_call_asks_the_provider_once() {
    let first = BearerTokenProviderHandle::new(CountingProvider { calls: 0.into() });
    let second = first.clone();
    assert_eq!(first.get_token().unwrap().expires_on, 1);
    assert_eq!(second.get_token().unwrap().expires_on, 2);
    assert_eq!(first.get_token().unwrap().expires_on, 3);
    let shown = second.subscribe_token_refresh().borrow().clone().unwrap();
    assert_eq!((shown.token.secret(), shown.expires_on), ("shown", 3));
}

#[test]
fn a_cached_token_is_returned_and_a_missing_one_is_an_error() {
    let token = token_or(Some(BearerToken::new("t", 5)), "none yet").unwrap();
    assert_eq!((token.token.secret(), token.expires_on), ("t", 5));
    assert_eq!(token_or(None, "none yet").unwrap_err().message, "none yet");
}
