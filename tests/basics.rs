use spectra::item_api::join_codes;
use spectra::model::{later_by, FileAccessor, ItemType, OperationType, Token};
use spectra::permission::{descriptor_of, ToPermission, UserPermission};
use spectra::range::{byte_range, content_range};
use spectra::store::trim_leading_slashes;
use spectra::util::{random_password, random_string};
use spectra::views::ApiError;

#[test]
fn permission_bits() {
    assert_eq!(UserPermission::Manage.into_i64(), 1);
    assert_eq!(UserPermission::Link.into_i64(), 2);
    assert_eq!(UserPermission::Code.as_i64(), 4);
    assert_eq!(UserPermission::File.as_i64(), 8);
}

#[test]
fn permissions_from_descriptor() {
    assert_eq!(
        UserPermission::from_i64(5),
        vec![UserPermission::Manage, UserPermission::Code]
    );
    assert_eq!(UserPermission::from_i64(0), vec![]);
    assert_eq!(UserPermission::from_i64(15).len(), 4);
}

#[test]
fn descriptor_contains() {
    assert!(6i64.contains(UserPermission::Link));
    assert!(!6i64.contains(UserPermission::Manage));
    assert!(1i64.contains(UserPermission::Manage));
}

#[test]
fn descriptor_ofs_bits() {
    assert_eq!(
        descriptor_of(&vec![UserPermission::Link, UserPermission::Code]),
        6
    );
    assert_eq!(descriptor_of(&vec![]), 0);
    assert_eq!(
        descriptor_of(&vec![UserPermission::Link, UserPermission::Link]),
        2
    );
}

#[test]
fn item_type_names() {
    assert_eq!(ItemType::parse("link"), Some(ItemType::Link));
    assert_eq!(ItemType::parse("file"), Some(ItemType::File));
    assert_eq!(ItemType::parse("other"), None);
    assert_eq!(ItemType::Code.name(), "code");
    assert_eq!(OperationType::parse("get"), Some(OperationType::Get));
    assert_eq!(OperationType::Put.name(), "set");
}

#[test]
fn token_lifetime() {
    let t = Token::issued_at("u".to_string(), false, 1000);
    assert_eq!(t.expires_at, 1600);
    assert!(!t.is_expired_at(1600));
    assert!(t.is_expired_at(1601));
    assert!(t.survives_sweep(1599));
    assert!(!t.survives_sweep(1600));
    assert_eq!(later_by(i64::MAX - 1, 600), i64::MAX);
}

#[test]
fn token_issued_now_is_live() {
    let t = Token::new("u".to_string(), true);
    assert!(!t.is_expired());
    assert!(t.temporary);
}

#[test]
fn slashes_trimmed() {
    assert_eq!(trim_leading_slashes("//abc/d"), "abc/d");
    assert_eq!(trim_leading_slashes("abc"), "abc");
    assert_eq!(trim_leading_slashes("/"), "");
}

#[test]
fn first_hundred_bytes() {
    let r = byte_range(Some("bytes=0-99"), 1000);
    assert_eq!(r.status, 206);
    assert_eq!(r.start, 0);
    assert_eq!(r.end, 99);
    assert_eq!(r.content_length, 100);
    assert_eq!(content_range(&r, 1000), "bytes 0-99/1000");
}

#[test]
fn whole_file_without_range() {
    let r = byte_range(None, 10);
    assert_eq!((r.status, r.start, r.end, r.content_length), (200, 0, 9, 10));
}

#[test]
fn open_ended_and_clamped_ranges() {
    let r = byte_range(Some("bytes=5-"), 10);
    assert_eq!((r.status, r.start, r.end, r.content_length), (206, 5, 9, 5));
    let r = byte_range(Some("bytes=3-500"), 10);
    assert_eq!((r.start, r.end, r.content_length), (3, 9, 7));
    let r = byte_range(Some("bytes=x-4"), 10);
    assert_eq!((r.start, r.end), (0, 4));
    let r = byte_range(Some("items=1-2"), 10);
    assert_eq!((r.status, r.start, r.end), (206, 0, 9));
    let r = byte_range(Some("bytes=+2-3"), 10);
    assert_eq!((r.start, r.end), (2, 3));
}

#[test]
fn empty_file_is_sent_whole() {
    let r = byte_range(Some("bytes=0-99"), 0);
    assert_eq!((r.status, r.content_length), (200, 0));
    let r = byte_range(None, 0);
    assert_eq!((r.status, r.content_length), (200, 0));
}

#[test]
fn inverted_range_is_unsatisfiable() {
    let r = byte_range(Some("bytes=8-2"), 10);
    assert_eq!(r.status, 416);
    assert_eq!(r.content_length, 0);
}

#[test]
fn random_texts() {
    let p = random_password();
    assert_eq!(p.chars().count(), 16);
    let s = random_string(4, Some("ab"));
    assert_eq!(s.len(), 4);
    assert!(s.chars().all(|c| c == 'a' || c == 'b'));
}

#[test]
fn codes_joined() {
    assert_eq!(
        join_codes(&vec!["a".to_string(), "b".to_string()]),
        "a, b"
    );
    assert_eq!(join_codes(&vec![]), "");
}

#[test]
fn api_error_status() {
    let e = ApiError::new(404, "Item not found".to_string());
    assert_eq!(e.status(), 404);
    assert_eq!(e.message(), "Item not found");
    assert_eq!(ApiError::Internal("x".to_string()).status(), 500);
}

#[test]
fn file_paths() {
    let fa = FileAccessor::new("/data".to_string());
    assert_eq!(fa.path_of("a.txt"), "/data/a.txt");
}
