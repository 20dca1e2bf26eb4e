use rlinks::kv::{kv_status, value_url, KvStatus};

#[test]
fn kv_status_classes() {
    assert_eq!(kv_status(404), KvStatus::Missing);
    assert_eq!(kv_status(200), KvStatus::Success);
    assert_eq!(kv_status(299), KvStatus::Success);
    assert_eq!(kv_status(302), KvStatus::Failed);
    assert_eq!(kv_status(500), KvStatus::Failed);
}

#[test]
fn value_url_layout() {
    assert_eq!(
        value_url("acc", "ns", "ok-code"),
        "https://api.cloudflare.com/client/v4/accounts/acc/storage/kv/namespaces/ns/values/ok-code"
    );
}
