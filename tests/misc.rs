use tempest::engine::{init_april_api, UnsupportedVersion, APRIL_VERSION};
use tempest::fallback::best_match;
use tempest::llm::Client;

#[test]
fn lib_it_can_initialize() {
    assert_eq!(init_april_api(1), Ok(()));
}

#[test]
fn it_can_initialize() {
    assert_eq!(init_april_api(APRIL_VERSION), Ok(()));
}

#[test]
fn exposes_expected_api_version() {
    let rust_version = APRIL_VERSION;
    assert_ne!(Some(rust_version), None);
    assert_eq!(rust_version, 1);
}

#[test]
fn init_rejects_other_versions() {
    assert_eq!(init_april_api(0), Err(UnsupportedVersion { wanted: 1, got: 0 }));
    assert_eq!(init_april_api(2), Err(UnsupportedVersion { wanted: 1, got: 2 }));
}

#[test]
fn best_match_takes_first_highest_above_threshold() {
    assert_eq!(best_match(&[3, 9, 9, 1], 5), Some(1));
    assert_eq!(best_match(&[3, 4, 5], 5), None);
    assert_eq!(best_match(&[6], 5), Some(0));
    assert_eq!(best_match(&[], 5), None);
    assert_eq!(best_match(&[-4, -2, -9], -3), Some(1));
}

#[test]
fn relay_request_carries_prompt() {
    let (_tx, rx) = std::sync::mpsc::channel();
    let client = Client {
        model: "llama3".to_string(),
        endpoint: "http://127.0.0.1:11434/api/chat".to_string(),
        receiver: rx,
    };
    let req = client.request("write a poem".to_string());
    assert_eq!(req.model, "llama3");
    assert_eq!(req.messages.len(), 1);
    assert_eq!(req.messages[0].role, "user");
    assert_eq!(req.messages[0].content, "write a poem");
    assert!(!req.stream);
}
