use sha2::Digest;
use spectra::model::ItemType;
use spectra::serve::ReadOutcome;
use spectra::store::ItemStore;

fn digest(s: &str) -> String {
    format!("{:x}", sha2::Sha256::digest(s.as_bytes()))
}

fn store_with(
    path: &str,
    t: ItemType,
    data: &str,
    expires_at: Option<i64>,
    max_visits: Option<i64>,
    password: Option<&str>,
    extra: Option<&str>,
) -> ItemStore {
    let mut s = ItemStore::new();
    let h = password.map(digest);
    s.create_item(
        path,
        t,
        data,
        expires_at,
        max_visits,
        h.as_deref(),
        extra,
        Some("creator-1"),
        100,
    )
    .unwrap();
    s
}

#[test]
fn link_redirects_and_counts_a_visit() {
    let mut s = store_with("abc", ItemType::Link, "https://example.com", None, None, None, None);
    assert_eq!(s.items[0].visits, 0);
    match s.read_item("/abc", 200, None, None, "1.2.3.4") {
        ReadOutcome::Redirect(u) => assert_eq!(u, "https://example.com"),
        other => panic!("unexpected {:?}", other),
    }
    assert_eq!(s.items[0].visits, 1);
    assert_eq!(s.logs.len(), 1);
    assert!(s.logs[0].success);
    assert_eq!(s.logs[0].path, "/abc");
    assert_eq!(s.logs[0].ip_address, "1.2.3.4");
}

#[test]
fn code_with_password() {
    let mut s = store_with("abc", ItemType::Code, "c.txt", None, None, Some("hunter2"), None);
    match s.read_item("/abc", 200, None, Some("wrong"), "ip") {
        ReadOutcome::Password(info) => {
            assert!(info.error);
            assert_eq!(info.path_name, "abc");
        }
        other => panic!("unexpected {:?}", other),
    }
    assert_eq!(s.logs.len(), 1);
    assert!(!s.logs[0].success);
    assert_eq!(s.items[0].visits, 0);
    match s.read_item("/abc", 200, None, Some("hunter2"), "ip") {
        ReadOutcome::Code { filename, info } => {
            assert_eq!(filename, "c.txt");
            assert_eq!(info.language, "text");
        }
        other => panic!("unexpected {:?}", other),
    }
    assert_eq!(s.items[0].visits, 1);
    assert_eq!(s.logs.len(), 2);
}

#[test]
fn missing_password_prompts_without_logging() {
    let mut s = store_with("abc", ItemType::Link, "https://x.org", None, None, Some("pw"), None);
    match s.read_item("/abc", 200, None, None, "ip") {
        ReadOutcome::Password(info) => assert!(!info.error),
        other => panic!("unexpected {:?}", other),
    }
    assert_eq!(s.logs.len(), 0);
    assert_eq!(s.items[0].visits, 0);
}

#[test]
fn creator_and_admin_sessions_skip_the_password() {
    let mut s = store_with("abc", ItemType::Link, "https://x.org", None, None, Some("pw"), None);
    assert!(matches!(
        s.read_item("/abc", 200, Some("creator-1"), None, "ip"),
        ReadOutcome::Redirect(_)
    ));
    assert!(matches!(
        s.read_item("/abc", 200, Some("00000000-0000-0000-0000-000000000000"), None, "ip"),
        ReadOutcome::Redirect(_)
    ));
    assert!(matches!(
        s.read_item("/abc", 200, Some("someone"), None, "ip"),
        ReadOutcome::Password(_)
    ));
}

#[test]
fn expired_item_is_not_found_and_marked() {
    let mut s = store_with("abc", ItemType::Link, "https://x.org", Some(150), None, None, None);
    assert!(matches!(s.read_item("/abc", 200, None, None, "ip"), ReadOutcome::NotFound));
    assert!(!s.items[0].available);
    assert_eq!(s.items[0].should_drop_at, Some(200 + 604800));
    assert_eq!(s.logs.len(), 0);
    assert!(matches!(s.read_item("/abc", 300, None, None, "ip"), ReadOutcome::NotFound));
}

#[test]
fn item_at_visit_limit_is_not_found() {
    let mut s = store_with("abc", ItemType::Link, "https://x.org", None, Some(1), None, None);
    assert!(matches!(s.read_item("/abc", 200, None, None, "ip"), ReadOutcome::Redirect(_)));
    assert_eq!(s.items[0].visits, 1);
    assert!(matches!(s.read_item("/abc", 201, None, None, "ip"), ReadOutcome::NotFound));
    assert!(!s.items[0].available);
}

#[test]
fn unknown_path_goes_to_front_end() {
    let mut s = ItemStore::new();
    assert!(matches!(s.read_item("/nothing", 1, None, None, "ip"), ReadOutcome::Unknown));
}

#[test]
fn file_item_disposition_and_type() {
    let mut s = store_with("f", ItemType::File, "x.png", None, None, None, Some("pic.png"));
    match s.read_item("/f", 200, None, None, "ip") {
        ReadOutcome::File { filename, disposition, mime } => {
            assert_eq!(filename, "x.png");
            assert_eq!(disposition, "attachment; filename=\"pic.png\"");
            assert_eq!(mime, "image/png");
        }
        other => panic!("unexpected {:?}", other),
    }
    let mut s = store_with("g", ItemType::File, "y.bin", None, None, None, None);
    match s.read_item("/g", 200, None, None, "ip") {
        ReadOutcome::File { disposition, mime, .. } => {
            assert_eq!(disposition, "inline");
            assert_eq!(mime, "application/octet-stream");
        }
        other => panic!("unexpected {:?}", other),
    }
}

#[test]
fn refresh_marks_then_drops() {
    let mut s = store_with("a", ItemType::Code, "a.txt", Some(100), None, None, None);
    s.create_item("b", ItemType::Link, "https://b", None, None, None, None, None, 100)
        .unwrap();
    s.refresh_db(100);
    assert!(s.items[0].available);
    let dropped = s.refresh_db(101);
    assert!(dropped.is_empty());
    assert!(!s.items[0].available);
    assert_eq!(s.items[0].should_drop_at, Some(101 + 604800));
    assert!(s.items[1].available);
    let dropped = s.refresh_db(101 + 604800);
    assert_eq!(dropped, vec!["a.txt".to_string()]);
    assert_eq!(s.items.len(), 1);
    assert_eq!(s.items[0].short_path, "b");
}

#[test]
fn duplicate_path_refused() {
    let mut s = store_with("a", ItemType::Link, "https://a", None, None, None, None);
    assert!(s
        .create_item("a", ItemType::Link, "https://b", None, None, None, None, None, 1)
        .is_err());
    assert_eq!(s.items.len(), 1);
}

#[test]
fn item_ids_are_uuids() {
    let s = store_with("a", ItemType::Link, "https://a", None, None, None, None);
    assert_eq!(s.items[0].id.len(), 36);
    assert_ne!(s.items[0].id, "a");
}

#[test]
fn prompt_then_password_counts_once() {
    let mut s = store_with("abc", ItemType::Link, "https://x.org", None, None, Some("pw"), None);
    assert!(matches!(s.read_item("/abc", 200, None, None, "ip"), ReadOutcome::Password(_)));
    assert!(matches!(
        s.read_item("/abc", 201, None, Some("pw"), "ip"),
        ReadOutcome::Redirect(_)
    ));
    assert_eq!(s.items[0].visits, 1);
    assert_eq!(s.logs.len(), 1);
    assert!(s.logs[0].success);
}

#[test]
fn access_log_of_an_item() {
    let mut s = store_with("abc", ItemType::Link, "https://x.org", None, None, Some("pw"), None);
    let _ = s.read_item("/abc", 200, None, Some("bad"), "ip");
    let _ = s.read_item("/abc", 210, None, Some("pw"), "ip");
    let logs = s.get_item_access_logs("abc");
    assert_eq!(logs.len(), 2);
    assert!(logs[0].success);
    assert_eq!(logs[0].accessed_at, 210);
    assert!(!logs[1].success);
    assert!(s.get_item_access_logs("other").is_empty());
}

#[test]
fn refresh_hands_out_only_own_files() {
    let mut s = store_with("l", ItemType::Link, "https://l", Some(100), None, None, None);
    s.create_item("p", ItemType::File, "dummy_file.txt", Some(100), None, None, None, None, 100)
        .unwrap();
    s.create_item("f", ItemType::File, "x.bin", Some(100), None, None, None, None, 100)
        .unwrap();
    s.refresh_db(101);
    let dropped = s.refresh_db(101 + 604800);
    assert_eq!(dropped, vec!["x.bin".to_string()]);
    assert!(s.items.is_empty());
}
