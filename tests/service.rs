use sha2::Digest;
use spectra::api::{LoginField, Service};
use spectra::item_api::{ItemInfo, Verification};
use spectra::model::{ApiItemUpload, ItemType, TurnstileConfig};
use spectra::permission::UserPermission;

const ADMIN: &str = "00000000-0000-0000-0000-000000000000";

fn digest(s: &str) -> String {
    format!("{:x}", sha2::Sha256::digest(s.as_bytes()))
}

fn service(enabled: bool) -> Service {
    let mut s = Service::new(TurnstileConfig {
        enabled,
        site_key: "site".to_string(),
        secret_key: "secret".to_string(),
    });
    s.store
        .create_user(ADMIN, "admin", "admin@x", &digest("root"), 1, None, 0)
        .unwrap();
    s.store
        .create_user("u1", "alice", "alice@x", &digest("pw"), 2, None, 0)
        .unwrap();
    s
}

fn login(s: &mut Service, email: &str, pw: &str) -> String {
    s.login(
        LoginField::Text(email.to_string()),
        LoginField::Text(pw.to_string()),
        1000,
    )
    .unwrap()
    .1
}

fn upload(t: ItemType, data: &str, password: Option<&str>) -> ApiItemUpload {
    ApiItemUpload {
        data: data.to_string(),
        expires_at: None,
        extra_data: None,
        item_type: t,
        max_visits: None,
        password: password.map(|p| p.to_string()),
    }
}

#[test]
fn login_checks_password_digest() {
    let mut s = service(false);
    let r = s.login(
        LoginField::Text("alice@x".to_string()),
        LoginField::Text("pw".to_string()),
        1000,
    );
    let (user, key) = r.unwrap();
    assert_eq!(user.id, "u1");
    assert_eq!(user.descriptor, vec![UserPermission::Link]);
    assert_eq!(s.tokens.get(&key).unwrap().user_id, "u1");
    let bad = s.login(
        LoginField::Text("alice@x".to_string()),
        LoginField::Text("nope".to_string()),
        1000,
    );
    assert_eq!(bad.unwrap_err().status(), 401);
    let missing = s.login(LoginField::Missing, LoginField::Text("pw".to_string()), 1000);
    assert_eq!(missing.unwrap_err().status(), 400);
    let not_text = s.login(LoginField::NotText, LoginField::Text("pw".to_string()), 1000);
    assert_eq!(not_text.unwrap_err().status(), 400);
}

#[test]
fn admin_cannot_be_removed() {
    let mut s = service(false);
    let admin_key = login(&mut s, "admin@x", "root");
    let r = s.remove_user(Some(&admin_key), ADMIN, 1000);
    assert_eq!(r.unwrap_err().status(), 403);
    let user_key = login(&mut s, "alice@x", "pw");
    let r = s.remove_user(Some(&user_key), ADMIN, 1000);
    assert_eq!(r.unwrap_err().status(), 403);
    assert_eq!(s.store.users.len(), 2);
    let r = s.remove_user(None, ADMIN, 1000);
    assert_eq!(r.unwrap_err().status(), 403);
}

#[test]
fn user_removes_own_account() {
    let mut s = service(false);
    let key = login(&mut s, "alice@x", "pw");
    let r = s.remove_user(Some(&key), "u1", 1000).unwrap();
    assert_eq!(r.id, "u1");
    assert_eq!(s.store.users.len(), 1);
}

#[test]
fn user_views() {
    let mut s = service(false);
    let key = login(&mut s, "alice@x", "pw");
    assert_eq!(s.user_info(Some(&key), 1000).unwrap().name, "alice");
    assert_eq!(s.get_users(Some(&key), 1000).unwrap_err().status(), 403);
    assert_eq!(s.get_user(Some(&key), ADMIN, 1000).unwrap_err().status(), 403);
    let admin = login(&mut s, "admin@x", "root");
    assert_eq!(s.get_users(Some(&admin), 1000).unwrap().len(), 2);
    assert_eq!(s.get_user(Some(&admin), "nobody", 1000).unwrap_err().status(), 404);
    s.logout(Some(&key));
    assert_eq!(s.user_info(Some(&key), 1000).unwrap_err().status(), 401);
}

#[test]
fn manager_creates_user() {
    let mut s = service(false);
    let admin = login(&mut s, "admin@x", "root");
    let u = s
        .create_user(
            Some(&admin),
            "bob",
            "bob@x",
            "h",
            &vec![UserPermission::Code, UserPermission::File],
            None,
            5,
        )
        .unwrap();
    assert_eq!(u.descriptor, vec![UserPermission::Code, UserPermission::File]);
    assert_eq!(s.store.users[2].descriptor, 12);
    let dup = s.create_user(Some(&admin), "b2", "bob@x", "h", &vec![], None, 5);
    assert_eq!(dup.unwrap_err().status(), 409);
    let bob = login(&mut s, "bob@x", "h");
    assert_eq!(s.user_info(Some(&bob), 1000).unwrap().name, "bob");
    let twice = s
        .create_user(Some(&admin), "c", "c@x", "h", &vec![UserPermission::Link, UserPermission::Link], None, 5)
        .unwrap();
    assert_eq!(twice.descriptor, vec![UserPermission::Link]);
}

#[test]
fn create_link_needs_permission() {
    let mut s = service(false);
    let key = login(&mut s, "alice@x", "pw");
    let c = s
        .create_item("abc", Some(&key), upload(ItemType::Link, "https://example.com", None), Verification::Absent, 1000)
        .unwrap();
    assert_eq!(c.item.short_path, "abc");
    assert_eq!(c.item.creator.as_deref(), Some("u1"));
    let denied = s.create_item("code", Some(&key), upload(ItemType::Code, "x", None), Verification::Absent, 1000);
    assert_eq!(denied.unwrap_err().status(), 403);
    let taken = s.create_item("abc", Some(&key), upload(ItemType::Link, "https://b", None), Verification::Absent, 1000);
    assert_eq!(taken.unwrap_err().status(), 409);
    let anon = s.create_item("zzz", None, upload(ItemType::Link, "https://b", None), Verification::Absent, 1000);
    assert_eq!(anon.unwrap_err().status(), 401);
}

#[test]
fn created_code_item_gets_a_text_file_and_password_digest() {
    let mut s = service(false);
    let admin = login(&mut s, "admin@x", "root");
    let c = s
        .create_item("c", Some(&admin), upload(ItemType::Code, "fn main() {}", Some("hunter2")), Verification::Absent, 1000)
        .unwrap();
    let f = c.code_file.unwrap();
    assert!(f.ends_with(".txt"));
    assert_eq!(f.len(), 40);
    assert_eq!(s.store.items[0].data, f);
    assert_eq!(s.store.items[0].password_hash.as_deref(), Some(digest("hunter2").as_str()));
}

#[test]
fn expiry_is_parsed() {
    let mut s = service(false);
    let admin = login(&mut s, "admin@x", "root");
    let mut up = upload(ItemType::Link, "https://e", None);
    up.expires_at = Some("2020-01-01T00:00:00Z".to_string());
    s.create_item("e", Some(&admin), up, Verification::Absent, 1000).unwrap();
    assert_eq!(s.store.items[0].expires_at, Some(1577836800));
    let mut bad = upload(ItemType::Link, "https://e", None);
    bad.expires_at = Some("yesterday".to_string());
    let r = s.create_item("e2", Some(&admin), bad, Verification::Absent, 1000);
    assert_eq!(r.unwrap_err().status(), 400);
}

#[test]
fn guest_upload_flow() {
    let mut s = service(true);
    let r = s.create_item("mine", None, upload(ItemType::File, "", None), Verification::Passed, 1000);
    assert_eq!(r.unwrap_err().status(), 403);
    let r = s.create_item(
        "__RANDOM__",
        None,
        upload(ItemType::File, "", None),
        Verification::Failed(vec!["bad".to_string(), "worse".to_string()]),
        1000,
    );
    let e = r.unwrap_err();
    assert_eq!(e.status(), 422);
    assert_eq!(e.message(), "Turnstile error: bad, worse");
    let c = s
        .create_item("__RANDOM__", None, upload(ItemType::File, "", None), Verification::Passed, 1000)
        .unwrap();
    assert_eq!(c.item.short_path.chars().count(), 4);
    assert!(c.item.creator.as_deref().unwrap().starts_with("guest-"));
    assert_eq!(s.store.items[0].data, "dummy_file.txt");
    let key = c.guest_session.unwrap();
    assert!(s.tokens.get(&key).unwrap().temporary);
    let png: Vec<u8> = vec![0x89, 0x50, 0x4E, 0x47, 0x0D, 0x0A, 0x1A, 0x0A, 0, 0, 0, 0];
    let path = c.item.short_path.clone();
    let up = s.upload_file(&path, Some(&key), Some(&png), 1000).unwrap();
    assert!(up.session_ended);
    assert!(up.filename.ends_with(".png"));
    assert_eq!(s.store.items[0].data, up.filename);
    assert!(s.store.items[0].img);
    assert!(s.tokens.get(&key).is_none());
}

#[test]
fn upload_checks() {
    let mut s = service(false);
    let admin = login(&mut s, "admin@x", "root");
    s.create_item("f", Some(&admin), upload(ItemType::File, "", None), Verification::Absent, 1000)
        .unwrap();
    s.create_item("l", Some(&admin), upload(ItemType::Link, "https://l", None), Verification::Absent, 1000)
        .unwrap();
    assert_eq!(s.upload_file("none", Some(&admin), Some(b"x"), 1000).unwrap_err().status(), 404);
    assert_eq!(s.upload_file("f", None, Some(b"x"), 1000).unwrap_err().status(), 401);
    assert_eq!(s.upload_file("l", Some(&admin), Some(b"x"), 1000).unwrap_err().status(), 409);
    assert_eq!(s.upload_file("f", Some(&admin), None, 1000).unwrap_err().status(), 400);
    let alice = login(&mut s, "alice@x", "pw");
    assert_eq!(s.upload_file("f", Some(&alice), Some(b"x"), 1000).unwrap_err().status(), 403);
    let up = s.upload_file("f", Some(&admin), Some(b"plain"), 1000).unwrap();
    assert!(up.filename.ends_with(".bin"));
    assert!(!up.session_ended);
    assert!(!s.store.items[0].img);
}

#[test]
fn item_record_needs_password_or_owner() {
    let mut s = service(false);
    let alice = login(&mut s, "alice@x", "pw");
    s.create_item("p", Some(&alice), upload(ItemType::Link, "https://p", Some("sesame")), Verification::Absent, 1000)
        .unwrap();
    assert_eq!(s.get_item("p", None, false, None, 1000).unwrap_err().status(), 401);
    assert_eq!(s.get_item("p", None, false, Some("x"), 1000).unwrap_err().status(), 401);
    assert!(matches!(
        s.get_item("p", None, true, Some("sesame"), 1000).unwrap(),
        ItemInfo::Full(_)
    ));
    assert!(matches!(
        s.get_item("p", Some(&alice), false, None, 1000).unwrap(),
        ItemInfo::Simplified(_)
    ));
    assert_eq!(s.get_item("q", None, false, None, 1000).unwrap_err().status(), 404);
    assert_eq!(s.get_code("p", Some(&alice), None, 1000).unwrap_err().status(), 400);
}

#[test]
fn remove_and_list_items() {
    let mut s = service(false);
    let alice = login(&mut s, "alice@x", "pw");
    let admin = login(&mut s, "admin@x", "root");
    s.create_item("a", Some(&alice), upload(ItemType::Link, "https://a", None), Verification::Absent, 1000)
        .unwrap();
    s.create_item("b", Some(&alice), upload(ItemType::Link, "https://b", None), Verification::Absent, 1001)
        .unwrap();
    s.create_item("c", Some(&admin), upload(ItemType::Code, "x", None), Verification::Absent, 1002)
        .unwrap();
    let mine = s.get_user_items(Some(&alice), None, false, 0, 100, 1000).unwrap();
    let paths: Vec<String> = mine.iter().map(|v| v.short_path.clone()).collect();
    assert_eq!(paths, vec!["b".to_string(), "a".to_string()]);
    let second = s.get_user_items(Some(&alice), None, false, 1, 1, 1000).unwrap();
    assert_eq!(second.len(), 1);
    assert_eq!(second[0].short_path, "a");
    assert!(s.get_user_items(Some(&alice), None, false, 5, 1, 1000).unwrap().is_empty());
    assert_eq!(s.get_all_items(Some(&admin), 0, 2, 1000).unwrap().len(), 2);
    assert_eq!(s.get_user_items(Some(&alice), Some(ADMIN), false, 0, 100, 1000).unwrap_err().status(), 403);
    assert_eq!(s.get_all_items(Some(&alice), 0, 100, 1000).unwrap_err().status(), 403);
    assert_eq!(s.get_all_items(Some(&admin), 0, 100, 1000).unwrap().len(), 3);
    assert_eq!(s.remove_item("c", Some(&alice), 1000).unwrap_err().status(), 403);
    let (v, file) = s.remove_item("c", Some(&admin), 1000).unwrap();
    assert_eq!(v.short_path, "c");
    assert!(file.unwrap().ends_with(".txt"));
    let (_, file) = s.remove_item("a", Some(&alice), 1000).unwrap();
    assert!(file.is_none());
    assert_eq!(s.store.items.len(), 1);
}

#[test]
fn expired_sessions_are_swept() {
    let mut s = service(false);
    let key = login(&mut s, "alice@x", "pw");
    assert_eq!(s.tokens.session_user(&key, 1600).as_deref(), Some("u1"));
    assert!(s.tokens.session_user(&key, 1601).is_none());
    s.tokens.clear_expired(1599);
    assert!(s.tokens.get(&key).is_some());
    s.tokens.clear_expired(1600);
    assert!(s.tokens.get(&key).is_none());
}

#[test]
fn admin_password_reset() {
    let mut s = Service::new(TurnstileConfig {
        enabled: false,
        site_key: String::new(),
        secret_key: String::new(),
    });
    assert!(!s.store.admin_user_exists());
    s.reset_admin_password("first", 0).unwrap();
    assert!(s.store.admin_user_exists());
    assert_eq!(s.store.users[0].password, digest("first"));
    s.reset_admin_password("second", 0).unwrap();
    assert_eq!(s.store.users.len(), 1);
    assert_eq!(s.store.users[0].email, "admin@example.com");
    assert_eq!(s.store.users[0].descriptor, i64::MAX);
    let key = login(&mut s, "admin@example.com", "second");
    assert!(s.user_info(Some(&key), 1000).is_ok());
}

#[test]
fn expired_sessions_do_not_authorize() {
    let mut s = service(false);
    let admin = login(&mut s, "admin@x", "root");
    s.create_item("f", Some(&admin), upload(ItemType::File, "", None), Verification::Absent, 1000)
        .unwrap();
    assert_eq!(s.upload_file("f", Some(&admin), Some(b"x"), 1601).unwrap_err().status(), 401);
    assert_eq!(s.user_info(Some(&admin), 1601).unwrap_err().status(), 401);
    assert_eq!(s.get_users(Some(&admin), 1601).unwrap_err().status(), 401);
    assert_eq!(s.remove_user(Some(&admin), "u1", 1601).unwrap_err().status(), 401);
    assert_eq!(s.store.users.len(), 2);
}

#[test]
fn administrator_creates_without_type_bits() {
    let mut s = Service::new(TurnstileConfig {
        enabled: false,
        site_key: String::new(),
        secret_key: String::new(),
    });
    s.store
        .create_user(ADMIN, "admin", "admin@x", &digest("root"), 0, None, 0)
        .unwrap();
    let admin = login(&mut s, "admin@x", "root");
    assert!(s
        .create_item("c", Some(&admin), upload(ItemType::Code, "x", None), Verification::Absent, 1000)
        .is_ok());
}

#[test]
fn guests_only_upload_files() {
    let mut s = service(true);
    let r = s.create_item("__RANDOM__", None, upload(ItemType::Link, "https://x", None), Verification::Passed, 1000);
    assert_eq!(r.unwrap_err().status(), 403);
    assert!(s.store.items.is_empty());
}

#[test]
fn placeholder_is_never_handed_out_for_deletion() {
    let mut s = service(false);
    let admin = login(&mut s, "admin@x", "root");
    s.create_item("f", Some(&admin), upload(ItemType::File, "", None), Verification::Absent, 1000)
        .unwrap();
    let (_, file) = s.remove_item("f", Some(&admin), 1000).unwrap();
    assert!(file.is_none());
}

#[test]
fn verification_asked_only_after_local_checks() {
    let mut s = service(true);
    let admin = login(&mut s, "admin@x", "root");
    s.create_item("a", Some(&admin), upload(ItemType::Link, "https://a", None), Verification::Absent, 1000)
        .unwrap();
    let up = upload(ItemType::File, "", None);
    assert_eq!(s.needs_verification("a", &up, true).unwrap_err().status(), 409);
    assert_eq!(s.needs_verification("b", &up, true).unwrap(), true);
    assert_eq!(s.needs_verification("b", &up, false).unwrap(), false);
    let mut bad = upload(ItemType::File, "", None);
    bad.expires_at = Some("soon".to_string());
    assert_eq!(s.needs_verification("b", &bad, true).unwrap_err().status(), 400);
}

#[test]
fn first_free_path_in_character_order() {
    let mut s = service(false);
    assert_eq!(s.first_free_path().unwrap(), "aaaa");
    let admin = login(&mut s, "admin@x", "root");
    s.create_item("aaaa", Some(&admin), upload(ItemType::Link, "https://a", None), Verification::Absent, 1000)
        .unwrap();
    assert_eq!(s.first_free_path().unwrap(), "aaab");
    assert_eq!(s.free_random_path().unwrap().chars().count(), 4);
}

#[test]
fn session_keys_never_collide() {
    let mut s = service(false);
    let k1 = s.tokens.open_session_with_key("abcdefghijklmnop".to_string(), "u1", false, 1000);
    let k2 = s.tokens.open_session_with_key("abcdefghijklmnop".to_string(), "u1", false, 1000);
    assert_eq!(k1, "abcdefghijklmnop");
    assert_eq!(k2, "abcdefghijklmnop+");
    assert!(s.tokens.get(&k1).is_some());
    assert!(s.tokens.get(&k2).is_some());
}

#[test]
fn listings_follow_creation_instants() {
    let mut s = service(false);
    let alice = login(&mut s, "alice@x", "pw");
    s.create_item("x", Some(&alice), upload(ItemType::Link, "https://x", None), Verification::Absent, 1200)
        .unwrap();
    s.create_item("y", Some(&alice), upload(ItemType::Link, "https://y", None), Verification::Absent, 1100)
        .unwrap();
    assert_eq!(s.store.items[1].created_at, 1200);
    let mine = s.get_user_items(Some(&alice), None, false, 0, 10, 1100).unwrap();
    assert_eq!(mine[0].short_path, "y");
    assert!(mine[0].created_at >= mine[1].created_at);
}
