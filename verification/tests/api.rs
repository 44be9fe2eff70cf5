use observer_ward::api::{api_help, request_targets, validator, webhook_authorization};
use observer_ward::messages::MessageLog;

fn s(x: &str) -> String {
    x.to_string()
}

#[test]
fn validator_without_token_admits_everyone() {
    assert!(validator("", "anything"));
    assert!(validator("", ""));
}

#[test]
fn validator_with_token_admits_only_the_token() {
    assert!(validator("secret", "secret"));
    assert!(!validator("secret", "Secret"));
    assert!(!validator("secret", ""));
}

#[test]
fn request_targets_merge_and_dedupe() {
    assert_eq!(
        request_targets(Some(s("a")), vec![s("b"), s("a"), s("c")]),
        vec![s("a"), s("b"), s("c")]
    );
    assert_eq!(request_targets(None, vec![s("b")]), vec![s(""), s("b")]);
    assert_eq!(request_targets(None, vec![]), vec![s("")]);
}

#[test]
fn webhook_authorization_values() {
    assert_eq!(webhook_authorization(&None), None);
    assert_eq!(webhook_authorization(&Some(s("Bearer abc"))), Some(s("Bearer abc")));
    assert_eq!(webhook_authorization(&Some(s("bad\nvalue"))), Some(s("AUTHORIZATION")));
    assert_eq!(webhook_authorization(&Some(s("tab\tok"))), Some(s("tab\tok")));
    assert_eq!(webhook_authorization(&Some(s("del\u{7f}"))), Some(s("AUTHORIZATION")));
    assert_eq!(webhook_authorization(&Some(s("ünï"))), Some(s("ünï")));
}

#[test]
fn api_help_text() {
    let got = api_help("http://127.0.0.1:8000/v1/observer_ward", "tok");
    let want = "curl --request POST \\\n  --url http://127.0.0.1:8000/v1/observer_ward \\\n  --header 'Authorization: Bearer tok' \\\n  --header 'Content-Type: application/json' \\\n  --data '{\"target\":\"https://httpbin.org/\"}'";
    assert_eq!(got, want);
}

#[test]
fn message_log_read_after_write() {
    let mut log = MessageLog::new();
    assert!(log.is_empty());
    log.insert(s("k"), s("v1"));
    log.insert(s("j"), s("w"));
    log.insert(s("k"), s("v2"));
    assert!(!log.is_empty());
    assert_eq!(log.get(&s("k")), Some(s("v2")));
    assert_eq!(log.get(&s("j")), Some(s("w")));
    assert_eq!(log.get(&s("z")), None);
    assert_eq!(log.entries(), vec![(s("k"), s("v2")), (s("j"), s("w"))]);
}
