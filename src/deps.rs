//! Calls into outside crates, each behind a contract that the rest of the
//! library relies on.
use vstd::prelude::*;

verus! {

/// The lower-case hexadecimal SHA-256 digest of the UTF-8 bytes of `s`.
pub uninterp spec fn sha256_hex(s: Seq<char>) -> Seq<char>;

/// The instant that `s` names when read as a UTC date and time, if it reads as one.
pub uninterp spec fn utc_instant(s: Seq<char>) -> Option<i64>;

/// The media type that `mime_guess` associates with the extension of a path.
pub uninterp spec fn guessed_mime(path: Seq<char>) -> Seq<char>;

/// The extension and media type that `infer` recognises in a byte buffer.
pub uninterp spec fn inferred_type(bytes: Seq<u8>) -> Option<(Seq<char>, Seq<char>)>;

/// Relies on sha2's `Sha256::digest`, printed as lower-case hex: the text
/// depends on the input alone and has two digits per digest byte.
#[verifier::external_body]
pub(crate) fn sha256_digest_hex(s: &str) -> (r: String)
    ensures
        r@ == sha256_hex(s@),
        r@.len() == 64,
{
    format!("{:x}", <sha2::Sha256 as sha2::Digest>::digest(s.as_bytes()))
}

/// Relies on chrono's `Utc::now`: the current instant, in seconds.
#[verifier::external_body]
pub(crate) fn current_instant() -> (r: i64) {
    chrono::Utc::now().timestamp()
}

/// Relies on chrono's `FromStr` for `DateTime<Utc>`: reading depends on the
/// text alone; the error's message is chrono's.
#[verifier::external_body]
pub(crate) fn parse_utc_instant(s: &str) -> (r: Result<i64, String>)
    ensures
        r matches Ok(t) ==> utc_instant(s@) == Some(t),
        r is Err ==> utc_instant(s@) is None,
{
    match s.parse::<chrono::DateTime<chrono::Utc>>() {
        Ok(d) => Ok(d.timestamp()),
        Err(e) => Err(e.to_string()),
    }
}

/// Relies on uuid's `Uuid::now_v7`, printed hyphenated: 36 characters.
#[verifier::external_body]
pub(crate) fn time_ordered_uuid() -> (r: String)
    ensures
        r@.len() == 36,
{
    uuid::Uuid::now_v7().to_string()
}

/// Relies on uuid's `Uuid::new_v4`, printed hyphenated: 36 characters.
#[verifier::external_body]
pub(crate) fn random_uuid() -> (r: String)
    ensures
        r@.len() == 36,
{
    uuid::Uuid::new_v4().to_string()
}

/// Relies on rand's `Rng::random_range` on the thread's generator: a value
/// below `n`, which must not be zero (the range may not be empty).
#[verifier::external_body]
pub(crate) fn random_below(n: usize) -> (r: usize)
    requires
        n > 0,
    ensures
        r < n,
{
    rand::Rng::random_range(&mut rand::rng(), 0..n)
}

/// Relies on mime_guess's `from_path`, taking the first guess or
/// `application/octet-stream`: the result depends on the path alone.
#[verifier::external_body]
pub(crate) fn mime_for_path(path: &str) -> (r: String)
    ensures
        r@ == guessed_mime(path@),
{
    mime_guess::from_path(path).first_or_octet_stream().to_string()
}

/// Relies on infer's `get`: the extension and media type of the recognised
/// format, if any; the result depends on the bytes alone.
#[verifier::external_body]
pub(crate) fn infer_type(bytes: &[u8]) -> (r: Option<(String, String)>)
    ensures
        r matches Some(p) ==> inferred_type(bytes@) == Some((p.0@, p.1@)),
        r is None ==> inferred_type(bytes@) is None,
{
    infer::get(bytes).map(|t| (t.extension().to_string(), t.mime_type().to_string()))
}

} // verus!
