//! Resolving a request for an item's short path: availability, the password
//! check, the access log and what is served.
use vstd::prelude::*;
use crate::deps::{guessed_mime, mime_for_path, sha256_digest_hex, sha256_hex};
use crate::model::{
    is_spent, later, text_eq, CodeInformation, Item, ItemType, OperationType,
    PasswordInformation, ADMIN_USER_ID, DROP_GRACE_SECS,
};
use crate::store::{has_path, records, trim_leading_slashes, trimmed_path, visited, with_availability, ItemStore};

verus! {

/// What a request for a path resolves to.
#[derive(Debug)]
pub enum ReadOutcome {
    /// No item is stored at the path: the request belongs to the web front end.
    Unknown,
    /// The item may no longer be served.
    NotFound,
    /// The password page; `error` tells whether a wrong password was given.
    Password(PasswordInformation),
    /// Redirect to the stored URL.
    Redirect(String),
    /// Show the code stored in `filename`.
    Code { filename: String, info: CodeInformation },
    /// Send the file stored in `filename`.
    File { filename: String, disposition: String, mime: String },
}

/// How an item's password check ends.
#[derive(Debug, Clone, Copy, PartialEq, Eq, Structural)]
pub enum Access {
    Granted,
    /// No credential was given: ask for the password.
    Prompt,
    /// A wrong password was given.
    Rejected,
}

/// Whether the session's user may read the item without its password: the
/// item's creator and the administrator may.
pub open spec fn session_may_read(item: Item, session_user: Option<Seq<char>>) -> bool {
    match session_user {
        Some(u) => (item.creator matches Some(c) && c@ == u) || u == ADMIN_USER_ID@,
        None => false,
    }
}

/// The outcome of the password check, given the digest of the supplied password.
pub open spec fn access_of(
    item: Item,
    session_user: Option<Seq<char>>,
    digest: Option<Seq<char>>,
) -> Access {
    match item.password_hash {
        None => Access::Granted,
        Some(h) => if session_may_read(item, session_user) {
            Access::Granted
        } else {
            match digest {
                None => Access::Prompt,
                Some(d) => if d == h@ {
                    Access::Granted
                } else {
                    Access::Rejected
                },
            }
        },
    }
}

/// The `Content-Disposition` value for a file with the given display name.
pub open spec fn disposition_of(display_name: Option<String>) -> Seq<char> {
    match display_name {
        Some(f) => "attachment; filename=\""@ + f@ + "\""@,
        None => "inline"@,
    }
}

/// The language shown for a code item.
pub open spec fn language_of(extra_data: Option<String>) -> Seq<char> {
    match extra_data {
        Some(l) => l@,
        None => "text"@,
    }
}

/// Whether `r` serves `item` once access is granted.
pub open spec fn serves(r: ReadOutcome, item: Item) -> bool {
    match item.item_type {
        ItemType::Link => r matches ReadOutcome::Redirect(u) && u@ == item.data@,
        ItemType::Code => r matches ReadOutcome::Code { filename, info } && filename@
            == item.data@ && info.language@ == language_of(item.extra_data),
        ItemType::File => r matches ReadOutcome::File { filename, disposition, mime }
            && filename@ == item.data@ && disposition@ == disposition_of(item.extra_data)
            && mime@ == guessed_mime(item.data@),
    }
}

/// Whether `r` is the password page for `item`.
pub open spec fn password_page(r: ReadOutcome, item: Item, error: bool) -> bool {
    r matches ReadOutcome::Password(info) && info.error == error && info.path_name@
        == item.short_path@
}

/// What a read of `request_path` at `now` does to the tables `old`, giving
/// `new` and the outcome `r`. `digest` is the digest of the supplied password.
pub open spec fn read_effect(
    old: ItemStore,
    new: ItemStore,
    r: ReadOutcome,
    request_path: Seq<char>,
    now: i64,
    session_user: Option<Seq<char>>,
    digest: Option<Seq<char>>,
    ip_address: Seq<char>,
) -> bool {
    let p = trimmed_path(request_path);
    &&& new.wf()
    &&& new.users@ == old.users@
    &&& !has_path(old.items@, p) ==> r is Unknown && new.items@ == old.items@ && new.logs@
        == old.logs@
    &&& forall|k: int|
        0 <= k < old.items@.len() && #[trigger] old.items@[k].short_path@ == p ==> {
            let it = old.items@[k];
            if is_spent(it, now) {
                &&& r is NotFound
                &&& new.logs@ == old.logs@
                &&& new.items@.len() == old.items@.len()
                &&& forall|j: int|
                    0 <= j < old.items@.len() ==> #[trigger] new.items@[j] == if old.items@[j].id@
                        == it.id@ {
                        with_availability(old.items@[j], false, now)
                    } else {
                        old.items@[j]
                    }
            } else if access_of(it, session_user, digest) == Access::Prompt {
                &&& password_page(r, it, false)
                &&& new.logs@ == old.logs@
                &&& new.items@ == old.items@
            } else if access_of(it, session_user, digest) == Access::Rejected {
                &&& password_page(r, it, true)
                &&& new.items@ == old.items@
                &&& new.logs@.len() == old.logs@.len() + 1
                &&& new.logs@.drop_last() == old.logs@
                &&& records(
                    new.logs@.last(),
                    it.id@,
                    request_path,
                    OperationType::Get,
                    false,
                    ip_address,
                    None,
                    now,
                )
            } else {
                &&& serves(r, it)
                &&& new.items@ == old.items@.update(k, visited(it))
                &&& new.logs@.len() == old.logs@.len() + 1
                &&& new.logs@.drop_last() == old.logs@
                &&& records(
                    new.logs@.last(),
                    it.id@,
                    request_path,
                    OperationType::Get,
                    true,
                    ip_address,
                    None,
                    now,
                )
            }
        }
}

/// Decides the password check for `item`.
pub fn check_access(item: &Item, session_user: Option<&str>, digest: Option<&str>) -> (r: Access)
    ensures
        r == access_of(
            *item,
            match session_user {
                Some(u) => Some(u@),
                None => None,
            },
            match digest {
                Some(d) => Some(d@),
                None => None,
            },
        ),
{
    match &item.password_hash {
        None => Access::Granted,
        Some(h) => {
            let by_session = match session_user {
                Some(u) => {
                    let is_creator = match &item.creator {
                        Some(c) => text_eq(c.as_str(), u),
                        None => false,
                    };
                    is_creator || text_eq(u, ADMIN_USER_ID)
                },
                None => false,
            };
            if by_session {
                Access::Granted
            } else {
                match digest {
                    None => Access::Prompt,
                    Some(d) => if text_eq(d, h.as_str()) {
                        Access::Granted
                    } else {
                        Access::Rejected
                    },
                }
            }
        },
    }
}

/// The `Content-Disposition` value for a file with the given display name.
pub fn content_disposition(display_name: &Option<String>) -> (r: String)
    ensures
        r@ == disposition_of(*display_name),
{
    match display_name {
        Some(f) => {
            let mut s = String::from_str("attachment; filename=\"");
            s.append(f.as_str());
            s.append("\"");
            s
        },
        None => String::from_str("inline"),
    }
}

/// What is served for `item` once access is granted.
fn serve(item: &Item) -> (r: ReadOutcome)
    ensures
        serves(r, *item),
{
    match item.item_type {
        ItemType::Link => ReadOutcome::Redirect(item.data.clone()),
        ItemType::Code => {
            let language = match &item.extra_data {
                Some(l) => l.clone(),
                None => String::from_str("text"),
            };
            ReadOutcome::Code { filename: item.data.clone(), info: CodeInformation { language } }
        },
        ItemType::File => ReadOutcome::File {
            filename: item.data.clone(),
            disposition: content_disposition(&item.extra_data),
            mime: mime_for_path(item.data.as_str()),
        },
    }
}

impl ItemStore {
    /// Resolves a read of `request_path` at `now`, given the digest of the
    /// supplied password, if one was supplied.
    pub fn read_item_with_digest(
        &mut self,
        request_path: &str,
        now: i64,
        session_user: Option<&str>,
        digest: Option<&str>,
        ip_address: &str,
    ) -> (r: ReadOutcome)
        requires
            old(self).wf(),
        ensures
            read_effect(
                *old(self),
                *final(self),
                r,
                request_path@,
                now,
                match session_user {
                    Some(u) => Some(u@),
                    None => None,
                },
                match digest {
                    Some(d) => Some(d@),
                    None => None,
                },
                ip_address@,
            ),
    {
        let path = trim_leading_slashes(request_path);
        let k = match self.find_item(path) {
            Some(k) => k,
            None => return ReadOutcome::Unknown,
        };
        proof {
            assert forall|j: int|
                0 <= j < self.items@.len() && #[trigger] self.items@[j].short_path@ == path@
                implies j == k by {}
        }
        if self.items[k].is_spent_at(now) {
            let id = self.items[k].id.clone();
            self.update_item_available(id.as_str(), false, now);
            proof {
                assert forall|i: int, j: int|
                    0 <= i < self.items@.len() && 0 <= j < self.items@.len() && i != j implies
                    self.items@[i].short_path@ != self.items@[j].short_path@ by {
                    assert(old(self).items@[i].short_path@ != old(self).items@[j].short_path@);
                }
            }
            return ReadOutcome::NotFound;
        }
        let access = check_access(&self.items[k], session_user, digest);
        match access {
            Access::Prompt => {
                ReadOutcome::Password(
                    PasswordInformation { error: false, path_name: self.items[k].short_path.clone() },
                )
            },
            Access::Rejected => {
                let id = self.items[k].id.clone();
                let name = self.items[k].short_path.clone();
                self.log_access(
                    id.as_str(),
                    request_path,
                    OperationType::Get,
                    false,
                    ip_address,
                    None,
                    now,
                );
                proof {
                    assert(self.items@ =~= old(self).items@);
                }
                ReadOutcome::Password(PasswordInformation { error: true, path_name: name })
            },
            Access::Granted => {
                let id = self.items[k].id.clone();
                let out = serve(&self.items[k]);
                self.log_access(
                    id.as_str(),
                    request_path,
                    OperationType::Get,
                    true,
                    ip_address,
                    None,
                    now,
                );
                proof {
                    assert(self.items@ =~= old(self).items@.update(k as int, visited(old(self).items@[k as int])));
                }
                out
            },
        }
    }

    /// Resolves a read of `request_path` at `now` with the password the
    /// requester supplied, if any.
    pub fn read_item(
        &mut self,
        request_path: &str,
        now: i64,
        session_user: Option<&str>,
        password: Option<&str>,
        ip_address: &str,
    ) -> (r: ReadOutcome)
        requires
            old(self).wf(),
        ensures
            read_effect(
                *old(self),
                *final(self),
                r,
                request_path@,
                now,
                match session_user {
                    Some(u) => Some(u@),
                    None => None,
                },
                match password {
                    Some(p) => Some(sha256_hex(p@)),
                    None => None,
                },
                ip_address@,
            ),
    {
        match password {
            Some(p) => {
                let d = sha256_digest_hex(p);
                self.read_item_with_digest(request_path, now, session_user, Some(d.as_str()), ip_address)
            },
            None => self.read_item_with_digest(request_path, now, session_user, None, ip_address),
        }
    }
}

/// A read of an item whose expiry time has passed finds nothing, and marks
/// the item unavailable, to be dropped after the grace period.
pub proof fn lemma_read_after_expiry(
    old: ItemStore,
    new: ItemStore,
    r: ReadOutcome,
    request_path: Seq<char>,
    now: i64,
    session_user: Option<Seq<char>>,
    digest: Option<Seq<char>>,
    ip_address: Seq<char>,
    k: int,
)
    requires
        old.wf(),
        read_effect(old, new, r, request_path, now, session_user, digest, ip_address),
        0 <= k < old.items@.len(),
        old.items@[k].short_path@ == trimmed_path(request_path),
        old.items@[k].expires_at matches Some(t) && t < now,
    ensures
        r is NotFound,
        !new.items@[k].available,
        new.items@[k].should_drop_at == Some(later(now, DROP_GRACE_SECS)),
        new.logs@ == old.logs@,
{
    assert(is_spent(old.items@[k], now));
    assert(new.items@[k] == with_availability(old.items@[k], false, now));
}

/// A read of an item that has been visited as often as it allows finds nothing.
pub proof fn lemma_read_after_last_visit(
    old: ItemStore,
    new: ItemStore,
    r: ReadOutcome,
    request_path: Seq<char>,
    now: i64,
    session_user: Option<Seq<char>>,
    digest: Option<Seq<char>>,
    ip_address: Seq<char>,
    k: int,
)
    requires
        old.wf(),
        read_effect(old, new, r, request_path, now, session_user, digest, ip_address),
        0 <= k < old.items@.len(),
        old.items@[k].short_path@ == trimmed_path(request_path),
        old.items@[k].max_visits == Some(old.items@[k].visits),
    ensures
        r is NotFound,
        !new.items@[k].available,
        new.logs@ == old.logs@,
{
    assert(is_spent(old.items@[k], now));
    assert(new.items@[k] == with_availability(old.items@[k], false, now));
}

/// For a password-protected item that is still available: no credential
/// gives the password page without an error and logs nothing; a wrong
/// password gives the page with an error and logs one failed access; the
/// right password, or a session of the creator or the administrator, serves
/// the item.
pub proof fn lemma_password_outcomes(
    old: ItemStore,
    new: ItemStore,
    r: ReadOutcome,
    request_path: Seq<char>,
    now: i64,
    session_user: Option<Seq<char>>,
    digest: Option<Seq<char>>,
    ip_address: Seq<char>,
    k: int,
)
    requires
        old.wf(),
        read_effect(old, new, r, request_path, now, session_user, digest, ip_address),
        0 <= k < old.items@.len(),
        old.items@[k].short_path@ == trimmed_path(request_path),
        old.items@[k].password_hash is Some,
        !is_spent(old.items@[k], now),
    ensures
        !session_may_read(old.items@[k], session_user) && digest is None ==> password_page(
            r,
            old.items@[k],
            false,
        ) && new.logs@ == old.logs@,
        !session_may_read(old.items@[k], session_user) && (digest matches Some(d) && d
            != old.items@[k].password_hash->0@) ==> password_page(r, old.items@[k], true)
            && new.logs@.len() == old.logs@.len() + 1 && !new.logs@.last().success,
        session_may_read(old.items@[k], session_user) || digest == Some(
            old.items@[k].password_hash->0@,
        ) ==> serves(r, old.items@[k]),
{
}

/// A granted read counts exactly one visit of the item and appends exactly
/// one successful entry to the access log.
pub proof fn lemma_granted_read_counts_once(
    old: ItemStore,
    new: ItemStore,
    r: ReadOutcome,
    request_path: Seq<char>,
    now: i64,
    session_user: Option<Seq<char>>,
    digest: Option<Seq<char>>,
    ip_address: Seq<char>,
    k: int,
)
    requires
        old.wf(),
        read_effect(old, new, r, request_path, now, session_user, digest, ip_address),
        0 <= k < old.items@.len(),
        old.items@[k].short_path@ == trimmed_path(request_path),
        !is_spent(old.items@[k], now),
        access_of(old.items@[k], session_user, digest) == Access::Granted,
        old.items@[k].visits < i64::MAX,
    ensures
        new.items@[k].visits == old.items@[k].visits + 1,
        new.logs@.len() == old.logs@.len() + 1,
        new.logs@.drop_last() == old.logs@,
        new.logs@.last().success,
        new.logs@.last().item_id@ == old.items@[k].id@,
{
}

/// A read without credentials of a password-protected item, followed by a
/// read with the right password, counts exactly one visit and appends
/// exactly one entry to the access log, a successful one.
pub proof fn lemma_prompt_then_password(
    s0: ItemStore,
    s1: ItemStore,
    s2: ItemStore,
    r1: ReadOutcome,
    r2: ReadOutcome,
    request_path: Seq<char>,
    now1: i64,
    now2: i64,
    ip_address: Seq<char>,
    k: int,
)
    requires
        s0.wf(),
        0 <= k < s0.items@.len(),
        s0.items@[k].short_path@ == trimmed_path(request_path),
        s0.items@[k].password_hash is Some,
        !is_spent(s0.items@[k], now1),
        !is_spent(s0.items@[k], now2),
        s0.items@[k].visits < i64::MAX,
        read_effect(s0, s1, r1, request_path, now1, None, None, ip_address),
        read_effect(
            s1,
            s2,
            r2,
            request_path,
            now2,
            None,
            Some(s0.items@[k].password_hash->0@),
            ip_address,
        ),
    ensures
        password_page(r1, s0.items@[k], false),
        serves(r2, s0.items@[k]),
        s2.items@[k].visits == s0.items@[k].visits + 1,
        s2.logs@.len() == s0.logs@.len() + 1,
        s2.logs@.last().success,
{
    assert(s1.items@ == s0.items@);
    assert(s1.items@[k].short_path@ == trimmed_path(request_path));
}

} // verus!
