//! The item calls of the API: reading an item's record, creating, uploading,
//! deleting and listing items.
use vstd::prelude::*;
use crate::api::{fails_with, holder, opt_seq, signed_out, Service};
use crate::deps::{
    infer_type, inferred_type, parse_utc_instant, sha256_digest_hex, sha256_hex, time_ordered_uuid,
    utc_instant,
};
use crate::model::{text_eq, Item, ItemType, ApiItemUpload, ADMIN_USER_ID, PLACEHOLDER_FILE};
use crate::permission::{has_permission, ToPermission, UserPermission};
use crate::serve::session_may_read;
use crate::token_store::opened;
use crate::store::{created_in_order, creation_instant, pluses, has_own_file, has_path, has_user_id, opt_holds, other_id, owns_file};
use crate::util::{drawn_from, random_string};
use crate::views::{fail, fully_shows, simplifies, ApiError, ApiItemFull, ItemSimplified};

verus! {

/// The path that asks for a random short path.
pub const RANDOM_PATH: &'static str = "__RANDOM__";

/// The characters of a random short path.
pub const PATH_CHARSET: &'static str = "abcdefghijklmnopqrstuvwxyzABCDEFGHIJKLMNOPQRSTUVWXYZ124567890";


/// How many random paths are tried before giving up.
pub const RANDOM_PATH_ATTEMPTS: usize = 64;

/// Whether the signed-in user of session `key` may read `item` without its
/// password: they are its creator or the administrator.
pub open spec fn session_reads(s: Service, key: Option<Seq<char>>, now: i64, item: Item) -> bool {
    exists|k: int|
        holder(s.tokens.view(), s.store.users@, key, true, now, k) && session_may_read(
            item,
            Some(s.store.users@[k].id@),
        )
}

/// Whether a caller may see `item` through the API: it has no password, the
/// session allows it, or `digest`, the digest of the supplied password, is the
/// stored one.
pub open spec fn api_may_read(
    s: Service,
    key: Option<Seq<char>>,
    now: i64,
    digest: Option<Seq<char>>,
    item: Item,
) -> bool {
    match item.password_hash {
        None => true,
        Some(h) => session_reads(s, key, now, item) || (digest matches Some(d) && d == h@),
    }
}

/// The digest of an optional supplied password.
pub open spec fn digest_of(password: Option<&str>) -> Option<Seq<char>> {
    match password {
        Some(p) => Some(sha256_hex(p@)),
        None => None,
    }
}

fn digest_opt(password: Option<&str>) -> (r: Option<String>)
    ensures
        match r {
            Some(d) => digest_of(password) == Some(d@),
            None => digest_of(password) is None,
        },
{
    match password {
        Some(p) => Some(sha256_digest_hex(p)),
        None => None,
    }
}

fn as_text(s: &Option<String>) -> (r: Option<&str>)
    ensures
        opt_seq(r) == match s {
            Some(t) => Some(t@),
            None => None,
        },
{
    match s {
        Some(t) => Some(t.as_str()),
        None => None,
    }
}

/// An item's record as the API shows it.
#[derive(Debug)]
pub enum ItemInfo {
    Full(ApiItemFull),
    Simplified(ItemSimplified),
}

/// The result of the external human verification of a guest.
#[derive(Debug)]
pub enum Verification {
    /// No verification token came with the request.
    Absent,
    Passed,
    /// The service refused the token, with its error codes.
    Failed(Vec<String>),
    /// The service could not be asked.
    Unreachable(String),
}

/// The permission an item type needs.
pub open spec fn required_permission(t: ItemType) -> UserPermission {
    match t {
        ItemType::Code => UserPermission::Code,
        ItemType::File => UserPermission::File,
        ItemType::Link => UserPermission::Link,
    }
}

/// Whether the user `id` with descriptor `d` may create items of type `t`:
/// the administrator always may.
pub open spec fn may_create(d: i64, id: Seq<char>, t: ItemType) -> bool {
    has_permission(d, UserPermission::Manage) || has_permission(d, required_permission(t)) || id
        == ADMIN_USER_ID@
}

/// Whether a user may change or delete `item`: managers may, and its creator.
pub open spec fn may_modify(d: i64, user_id: Seq<char>, item: Item) -> bool {
    has_permission(d, UserPermission::Manage) || (item.creator matches Some(c) && c@ == user_id)
}

/// The codes joined with `, `.
pub open spec fn joined(codes: Seq<Seq<char>>) -> Seq<char>
    decreases codes.len(),
{
    if codes.len() == 0 {
        Seq::empty()
    } else if codes.len() == 1 {
        codes[0]
    } else {
        joined(codes.drop_last()) + ", "@ + codes.last()
    }
}

pub fn join_codes(codes: &Vec<String>) -> (r: String)
    ensures
        r@ == joined(codes@.map_values(|c: String| c@)),
{
    let ghost views = codes@.map_values(|c: String| c@);
    let mut s = String::new();
    let mut i: usize = 0;
    while i < codes.len()
        invariant
            i <= codes@.len(),
            views == codes@.map_values(|c: String| c@),
            s@ == joined(views.take(i as int)),
        decreases codes@.len() - i,
    {
        if i > 0 {
            s.append(", ");
        }
        s.append(codes[i].as_str());
        proof {
            let t = views.take(i + 1);
            assert(t.drop_last() =~= views.take(i as int));
            if i == 0 {
                assert(t.len() == 1);
            }
        }
        i = i + 1;
    }
    proof {
        assert(views.take(codes@.len() as int) =~= views);
    }
    s
}

/// The outcome of a created item: its view, the file that the code text is
/// to be written to, and the key of the upload session a guest was given.
#[derive(Debug)]
pub struct Created {
    pub item: ItemSimplified,
    pub code_file: Option<String>,
    pub guest_session: Option<String>,
}

/// The outcome of a file upload: the item's view, the file that the bytes
/// are to be written to, and whether the guest's upload session was ended.
#[derive(Debug)]
pub struct Uploaded {
    pub item: ItemSimplified,
    pub filename: String,
    pub session_ended: bool,
}

/// The stored name and image flag of an uploaded payload: its recognised
/// extension, or `bin` when nothing is recognised.
pub open spec fn upload_kind(bytes: Seq<u8>) -> (Seq<char>, bool) {
    match inferred_type(bytes) {
        Some((ext, mime)) => (ext, mime.len() >= 5 && mime.subrange(0, 5) == "image"@),
        None => ("bin"@, false),
    }
}

impl Service {
    /// Whether the caller may see `item`, given the digest of the supplied password.
    fn may_read_item(&self, item: &Item, key: Option<&str>, digest: Option<&str>, now: i64) -> (r: bool)
        requires
            self.wf(),
        ensures
            r == api_may_read(*self, opt_seq(key), now, opt_seq(digest), *item),
    {
        match &item.password_hash {
            None => true,
            Some(h) => {
                let by_session = match self.current_user(key, true, now) {
                    Some(k) => {
                        let uid = self.store.users[k].id.as_str();
                        let is_creator = match &item.creator {
                            Some(c) => text_eq(c.as_str(), uid),
                            None => false,
                        };
                        is_creator || text_eq(uid, ADMIN_USER_ID)
                    },
                    None => false,
                };
                if by_session {
                    return true;
                }
                proof {
                    assert(!session_reads(*self, opt_seq(key), now, *item));
                }
                match digest {
                    Some(d) => text_eq(d, h.as_str()),
                    None => false,
                }
            },
        }
    }

    /// The record of the item at `path`, if the caller may see it with the
    /// password it supplied.
    pub fn get_item(
        &self,
        path: &str,
        key: Option<&str>,
        detailed: bool,
        password: Option<&str>,
        now: i64,
    ) -> (r: Result<ItemInfo, ApiError>)
        requires
            self.wf(),
        ensures
            item_record(*self, path@, opt_seq(key), detailed, digest_of(password), now, r),
    {
        let d = digest_opt(password);
        self.get_item_with_digest(path, key, detailed, as_text(&d), now)
    }

    /// The record of the item at `path`, if the caller may see it, given the
    /// digest of the supplied password.
    pub fn get_item_with_digest(
        &self,
        path: &str,
        key: Option<&str>,
        detailed: bool,
        digest: Option<&str>,
        now: i64,
    ) -> (r: Result<ItemInfo, ApiError>)
        requires
            self.wf(),
        ensures
            item_record(*self, path@, opt_seq(key), detailed, opt_seq(digest), now, r),
    {
        let k = match self.store.find_item(path) {
            Some(k) => k,
            None => return Err(fail(404, "Item not found")),
        };
        proof {
            assert forall|j: int|
                0 <= j < self.store.items@.len() && #[trigger] self.store.items@[j].short_path@
                    == path@ implies j == k by {}
        }
        if !self.may_read_item(&self.store.items[k], key, digest, now) {
            return Err(fail(401, "Authentication required"));
        }
        if detailed {
            Ok(ItemInfo::Full(ApiItemFull::from_item(&self.store.items[k])))
        } else {
            Ok(ItemInfo::Simplified(ItemSimplified::from_item(&self.store.items[k])))
        }
    }

    /// The code item at `path`, if the caller may see it; its text is read by
    /// the caller from the file the item names.
    pub fn get_code(&self, path: &str, key: Option<&str>, password: Option<&str>, now: i64) -> (r:
        Result<&Item, ApiError>)
        requires
            self.wf(),
        ensures
            code_record(*self, path@, opt_seq(key), digest_of(password), now, r),
    {
        let d = digest_opt(password);
        self.get_code_with_digest(path, key, as_text(&d), now)
    }
}

/// What `get_item` gives for `path`, given the digest of the supplied password.
pub open spec fn item_record(
    s: Service,
    path: Seq<char>,
    key: Option<Seq<char>>,
    detailed: bool,
    digest: Option<Seq<char>>,
    now: i64,
    r: Result<ItemInfo, ApiError>,
) -> bool {
    &&& !has_path(s.store.items@, path) ==> fails_with(r, 404)
    &&& forall|k: int|
        0 <= k < s.store.items@.len() && #[trigger] s.store.items@[k].short_path@ == path
            ==> if api_may_read(s, key, now, digest, s.store.items@[k]) {
            if detailed {
                r matches Ok(ItemInfo::Full(v)) && fully_shows(v, s.store.items@[k])
            } else {
                r matches Ok(ItemInfo::Simplified(v)) && simplifies(v, s.store.items@[k])
            }
        } else {
            fails_with(r, 401)
        }
}

/// What `get_code` gives for `path`, given the digest of the supplied password.
pub open spec fn code_record(
    s: Service,
    path: Seq<char>,
    key: Option<Seq<char>>,
    digest: Option<Seq<char>>,
    now: i64,
    r: Result<&Item, ApiError>,
) -> bool {
    &&& !has_path(s.store.items@, path) ==> fails_with(r, 404)
    &&& forall|k: int|
        0 <= k < s.store.items@.len() && #[trigger] s.store.items@[k].short_path@ == path
            ==> if s.store.items@[k].item_type != ItemType::Code {
            fails_with(r, 400)
        } else if api_may_read(s, key, now, digest, s.store.items@[k]) {
            r matches Ok(it) && *it == s.store.items@[k]
        } else {
            fails_with(r, 401)
        }
}

impl Service {
    /// The code item at `path`, if the caller may see it, given the digest of
    /// the supplied password.
    pub fn get_code_with_digest(&self, path: &str, key: Option<&str>, digest: Option<&str>, now: i64) -> (r:
        Result<&Item, ApiError>)
        requires
            self.wf(),
        ensures
            code_record(*self, path@, opt_seq(key), opt_seq(digest), now, r),
    {
        let k = match self.store.find_item(path) {
            Some(k) => k,
            None => return Err(fail(404, "Item not found")),
        };
        proof {
            assert forall|j: int|
                0 <= j < self.store.items@.len() && #[trigger] self.store.items@[j].short_path@
                    == path@ implies j == k by {}
        }
        if self.store.items[k].item_type != ItemType::Code {
            return Err(fail(400, "Item is not a Code"));
        }
        if !self.may_read_item(&self.store.items[k], key, digest, now) {
            return Err(fail(401, "Authentication required"));
        }
        Ok(&self.store.items[k])
    }

    /// Deletes the item at `path`; managers and its creator may. Returns its
    /// view and, where the item has a payload file of its own, that file to
    /// delete; never the shared placeholder.
    pub fn remove_item(&mut self, path: &str, key: Option<&str>, now: i64) -> (r: Result<
        (ItemSimplified, Option<String>),
        ApiError,
    >)
        requires
            old(self).wf(),
        ensures
            final(self).wf(),
            final(self).tokens == old(self).tokens,
            final(self).store.users@ == old(self).store.users@,
            final(self).store.logs@ == old(self).store.logs@,
            r is Err ==> final(self).store.items@ == old(self).store.items@,
            !has_path(old(self).store.items@, path@) ==> fails_with(r, 404),
            forall|k: int|
                0 <= k < old(self).store.items@.len() && #[trigger] old(self).store.items@[k].short_path@ == path@ ==> {
                    let it = old(self).store.items@[k];
                    if signed_out(
                        old(self).tokens.view(),
                        old(self).store.users@,
                        opt_seq(key),
                        true,
                        now,
                    ) {
                        fails_with(r, 401)
                    } else {
                        forall|u: int|
                            holder(
                                old(self).tokens.view(),
                                old(self).store.users@,
                                opt_seq(key),
                                true,
                                now,
                                u,
                            ) ==> if may_modify(
                                old(self).store.users@[u].descriptor,
                                old(self).store.users@[u].id@,
                                it,
                            ) {
                                r matches Ok(v) && simplifies(v.0, it) && final(self).store.items@ == old(self).store.items@.filter(other_id(it.id@))
                                    && (if owns_file(it) {
                                    v.1 matches Some(f) && f@ == it.data@
                                } else {
                                    v.1 is None
                                })
                            } else {
                                fails_with(r, 403)
                            }
                    }
                },
    {
        let k = match self.store.find_item(path) {
            Some(k) => k,
            None => return Err(fail(404, "Item not found")),
        };
        proof {
            assert forall|j: int|
                0 <= j < self.store.items@.len() && #[trigger] self.store.items@[j].short_path@
                    == path@ implies j == k by {}
        }
        let u = match self.current_user(key, true, now) {
            Some(u) => u,
            None => return Err(fail(401, "Invalid token")),
        };
        let is_manager = self.store.users[u].descriptor.contains(UserPermission::Manage);
        let is_creator = match &self.store.items[k].creator {
            Some(c) => text_eq(c.as_str(), self.store.users[u].id.as_str()),
            None => false,
        };
        if !is_manager && !is_creator {
            return Err(fail(403, "No sufficient permission"));
        }
        let view = ItemSimplified::from_item(&self.store.items[k]);
        let file = if has_own_file(&self.store.items[k]) {
            Some(self.store.items[k].data.clone())
        } else {
            None
        };
        let id = self.store.items[k].id.clone();
        self.store.remove_item(id.as_str());
        Ok((view, file))
    }

    /// Creates an item at `path` from `upload`. Signed-in users need the
    /// permission for the item's type; a guest who passed the verification may
    /// only create an item at a random path, and is given a single-use upload
    /// session for a file item.
    pub fn create_item(
        &mut self,
        path: &str,
        key: Option<&str>,
        upload: ApiItemUpload,
        verification: Verification,
        now: i64,
    ) -> (r: Result<Created, ApiError>)
        requires
            old(self).wf(),
        ensures
            final(self).wf(),
            final(self).store.users@ == old(self).store.users@,
            final(self).store.logs@ == old(self).store.logs@,
            final(self).turnstile == old(self).turnstile,
            r is Err ==> final(self).store.items@ == old(self).store.items@ && final(self).tokens.view() == old(self).tokens.view(),
            create_refusal(*old(self), path@, opt_seq(key), upload, verification, now) matches Some(
                st,
            ) ==> fails_with(r, st),
            create_refusal(*old(self), path@, opt_seq(key), upload, verification, now) is None
                ==> r is Ok || fails_with(r, 500),
            create_refusal(*old(self), path@, opt_seq(key), upload, verification, now) is None
                && !(path@ == RANDOM_PATH@ && all_paths_taken(old(self).store.items@)) ==> r is Ok,
            r matches Ok(c) ==> created(
                *old(self),
                *final(self),
                c,
                path@,
                opt_seq(key),
                upload,
                verification,
                now,
            ),
    {
        let ghost up = upload;
        let ghost ver = verification;
        let expires_at = match &upload.expires_at {
            Some(e) => match parse_utc_instant(e.as_str()) {
                Ok(t) => Some(t),
                Err(m) => return Err(ApiError::new(400, m)),
            },
            None => None,
        };
        if self.store.item_exists(path) {
            return Err(fail(409, "Item already exists"));
        }
        let guest = if self.turnstile.enabled {
            match verification {
                Verification::Absent => false,
                Verification::Passed => true,
                Verification::Failed(codes) => {
                    let mut m = String::from_str("Turnstile error: ");
                    let j = join_codes(&codes);
                    m.append(j.as_str());
                    return Err(ApiError::new(422, m));
                },
                Verification::Unreachable(m) => return Err(ApiError::Internal(m)),
            }
        } else {
            false
        };
        proof {
            reveal_strlit("__RANDOM__");
            reveal_strlit(".txt");
            reveal_strlit("guest-");
        }
        let random = text_eq(path, RANDOM_PATH);
        if guest && !random {
            return Err(fail(403, "Guest users are not allowed to create items at customized paths"));
        }
        if guest && upload.item_type != ItemType::File {
            return Err(fail(403, "Guest users may only upload files"));
        }
        let user = self.current_user(key, true, now);
        let u = match user {
            Some(u) => u,
            None => {
                if !guest {
                    return Err(fail(401, "Unauthorized"));
                }
                0
            },
        };
        if user.is_some() {
            let d = self.store.users[u].descriptor;
            let needed = match upload.item_type {
                ItemType::Code => UserPermission::Code,
                ItemType::File => UserPermission::File,
                ItemType::Link => UserPermission::Link,
            };
            if !d.contains(UserPermission::Manage) && !d.contains(needed) && !text_eq(
                self.store.users[u].id.as_str(),
                ADMIN_USER_ID,
            ) {
                return Err(fail(403, "Forbidden"));
            }
        }
        proof {
            assert(create_refusal(*old(self), path@, opt_seq(key), up, ver, now) is None);
        }
        let code_file: Option<String> = match upload.item_type {
            ItemType::Code => {
                let stem = time_ordered_uuid();
                let f = self.store.fresh_payload_name(stem, ".txt");
                proof {
                    let n = choose|n: nat| f@ == stem@ + #[trigger] pluses(n) + ".txt"@;
                    assert(f@.subrange(f@.len() - 4, f@.len() as int) =~= ".txt"@);
                }
                Some(f)
            },
            _ => None,
        };
        let data: String = match upload.item_type {
            ItemType::Code => match &code_file {
                Some(f) => f.clone(),
                None => String::new(),
            },
            ItemType::File => String::from_str(PLACEHOLDER_FILE),
            ItemType::Link => upload.data,
        };
        let creator: String = if guest {
            let mut g = String::from_str("guest-");
            let id = time_ordered_uuid();
            g.append(id.as_str());
            proof {
                assert(g@.subrange(0, 6) =~= "guest-"@);
            }
            g
        } else {
            self.store.users[u].id.clone()
        };
        let short_path: String = if random {
            match self.free_random_path() {
                Some(p) => p,
                None => return Err(ApiError::Internal(String::from_str("every short path is taken"))),
            }
        } else {
            path.to_owned()
        };
        let guest_session = if guest {
            Some(self.tokens.open_session(creator.as_str(), true, now))
        } else {
            None
        };
        let password_hash: Option<String> = match &upload.password {
            Some(p) => Some(sha256_digest_hex(p.as_str())),
            None => None,
        };
        let extra: Option<&str> = match &upload.extra_data {
            Some(e) => Some(e.as_str()),
            None => None,
        };
        let hash_ref: Option<&str> = match &password_hash {
            Some(h) => Some(h.as_str()),
            None => None,
        };
        let k = match self.store.create_item(
            short_path.as_str(),
            upload.item_type,
            data.as_str(),
            expires_at,
            upload.max_visits,
            hash_ref,
            extra,
            Some(creator.as_str()),
            now,
        ) {
            Ok(k) => k,
            Err(_) => return Err(ApiError::Internal(String::from_str("the item could not be stored"))),
        };
        let view = ItemSimplified::from_item(&self.store.items[k]);
        Ok(Created { item: view, code_file, guest_session })
    }

    /// The checks of `create_item` that come before the guest verification:
    /// a malformed expiry time (400) or a path in use (409). Otherwise whether
    /// the verification service is to be asked: it is enabled and the request
    /// carries a verification token.
    pub fn needs_verification(&self, path: &str, upload: &ApiItemUpload, has_token: bool) -> (r:
        Result<bool, ApiError>)
        requires
            self.wf(),
        ensures
            (upload.expires_at matches Some(e) && utc_instant(e@) is None) ==> fails_with(r, 400),
            !(upload.expires_at matches Some(e) && utc_instant(e@) is None) && has_path(
                self.store.items@,
                path@,
            ) ==> fails_with(r, 409),
            !(upload.expires_at matches Some(e) && utc_instant(e@) is None) && !has_path(
                self.store.items@,
                path@,
            ) ==> r == Ok::<bool, ApiError>(self.turnstile.enabled && has_token),
    {
        match &upload.expires_at {
            Some(e) => match parse_utc_instant(e.as_str()) {
                Ok(_) => {},
                Err(m) => return Err(ApiError::new(400, m)),
            },
            None => {},
        }
        if self.store.item_exists(path) {
            return Err(fail(409, "Item already exists"));
        }
        Ok(self.turnstile.enabled && has_token)
    }

    /// A short path that no item has: a random one where a bounded number of
    /// draws finds one, else the first free one in the order of the path
    /// characters. `None` only when every short path is taken.
    pub fn free_random_path(&self) -> (r: Option<String>)
        ensures
            r matches Some(p) ==> p@.len() == 4 && drawn_from(p@, PATH_CHARSET@) && !has_path(
                self.store.items@,
                p@,
            ),
            r is None ==> all_paths_taken(self.store.items@),
    {
        proof {
            reveal_strlit("abcdefghijklmnopqrstuvwxyzABCDEFGHIJKLMNOPQRSTUVWXYZ124567890");
        }
        let mut attempt: usize = 0;
        while attempt < RANDOM_PATH_ATTEMPTS
            invariant
                PATH_CHARSET@.len() == 61,
            decreases RANDOM_PATH_ATTEMPTS - attempt,
        {
            let candidate = random_string(4, Some(PATH_CHARSET));
            if !self.store.item_exists(candidate.as_str()) {
                return Some(candidate);
            }
            attempt = attempt + 1;
        }
        self.first_free_path()
    }

    /// The first short path, in the order of the path characters, that no
    /// item has; `None` when every one is taken.
    pub fn first_free_path(&self) -> (r: Option<String>)
        ensures
            r matches Some(p) ==> p@.len() == 4 && drawn_from(p@, PATH_CHARSET@) && !has_path(
                self.store.items@,
                p@,
            ),
            r is None ==> all_paths_taken(self.store.items@),
    {
        proof {
            reveal_strlit("abcdefghijklmnopqrstuvwxyzABCDEFGHIJKLMNOPQRSTUVWXYZ124567890");
        }
        let ghost items = self.store.items@;
        let mut a: usize = 0;
        while a < 61
            invariant
                PATH_CHARSET@.len() == 61,
                items == self.store.items@,
                a <= 61,
                forall|a2: int, b2: int, c2: int, d2: int|
                    0 <= a2 < a && 0 <= b2 < 61 && 0 <= c2 < 61 && 0 <= d2 < 61 ==> has_path(
                        items,
                        #[trigger] path_of_indices(a2, b2, c2, d2),
                    ),
            decreases 61 - a,
        {
            let mut b: usize = 0;
            while b < 61
                invariant
                    PATH_CHARSET@.len() == 61,
                    items == self.store.items@,
                    a < 61,
                    b <= 61,
                    forall|a2: int, b2: int, c2: int, d2: int|
                        0 <= a2 < a && 0 <= b2 < 61 && 0 <= c2 < 61 && 0 <= d2 < 61 ==> has_path(
                            items,
                            #[trigger] path_of_indices(a2, b2, c2, d2),
                        ),
                    forall|b2: int, c2: int, d2: int|
                        0 <= b2 < b && 0 <= c2 < 61 && 0 <= d2 < 61 ==> has_path(
                            items,
                            #[trigger] path_of_indices(a as int, b2, c2, d2),
                        ),
                decreases 61 - b,
            {
                let mut c: usize = 0;
                while c < 61
                    invariant
                        PATH_CHARSET@.len() == 61,
                        items == self.store.items@,
                        a < 61,
                        b < 61,
                        c <= 61,
                        forall|a2: int, b2: int, c2: int, d2: int|
                            0 <= a2 < a && 0 <= b2 < 61 && 0 <= c2 < 61 && 0 <= d2 < 61
                                ==> has_path(items, #[trigger] path_of_indices(a2, b2, c2, d2)),
                        forall|b2: int, c2: int, d2: int|
                            0 <= b2 < b && 0 <= c2 < 61 && 0 <= d2 < 61 ==> has_path(
                                items,
                                #[trigger] path_of_indices(a as int, b2, c2, d2),
                            ),
                        forall|c2: int, d2: int|
                            0 <= c2 < c && 0 <= d2 < 61 ==> has_path(
                                items,
                                #[trigger] path_of_indices(a as int, b as int, c2, d2),
                            ),
                    decreases 61 - c,
                {
                    let mut d: usize = 0;
                    while d < 61
                        invariant
                            PATH_CHARSET@.len() == 61,
                            items == self.store.items@,
                            a < 61,
                            b < 61,
                            c < 61,
                            d <= 61,
                            forall|a2: int, b2: int, c2: int, d2: int|
                                0 <= a2 < a && 0 <= b2 < 61 && 0 <= c2 < 61 && 0 <= d2 < 61
                                    ==> has_path(items, #[trigger] path_of_indices(a2, b2, c2, d2)),
                            forall|b2: int, c2: int, d2: int|
                                0 <= b2 < b && 0 <= c2 < 61 && 0 <= d2 < 61 ==> has_path(
                                    items,
                                    #[trigger] path_of_indices(a as int, b2, c2, d2),
                                ),
                            forall|c2: int, d2: int|
                                0 <= c2 < c && 0 <= d2 < 61 ==> has_path(
                                    items,
                                    #[trigger] path_of_indices(a as int, b as int, c2, d2),
                                ),
                            forall|d2: int|
                                0 <= d2 < d ==> has_path(
                                    items,
                                    #[trigger] path_of_indices(a as int, b as int, c as int, d2),
                                ),
                        decreases 61 - d,
                    {
                        let p = path_at(a, b, c, d);
                        if !self.store.item_exists(p.as_str()) {
                            proof {
                                lemma_indices_drawn(a as int, b as int, c as int, d as int);
                            }
                            return Some(p);
                        }
                        d = d + 1;
                    }
                    c = c + 1;
                }
                b = b + 1;
            }
            a = a + 1;
        }
        None
    }
}

/// The short path made of the path characters at positions `a`, `b`, `c`, `d`.
pub open spec fn path_of_indices(a: int, b: int, c: int, d: int) -> Seq<char> {
    seq![PATH_CHARSET@[a], PATH_CHARSET@[b], PATH_CHARSET@[c], PATH_CHARSET@[d]]
}

/// Whether every short path of four path characters is taken.
pub open spec fn all_paths_taken(items: Seq<Item>) -> bool {
    forall|a: int, b: int, c: int, d: int|
        0 <= a < 61 && 0 <= b < 61 && 0 <= c < 61 && 0 <= d < 61 ==> has_path(
            items,
            #[trigger] path_of_indices(a, b, c, d),
        )
}

proof fn lemma_indices_drawn(a: int, b: int, c: int, d: int)
    requires
        PATH_CHARSET@.len() == 61,
        0 <= a < 61 && 0 <= b < 61 && 0 <= c < 61 && 0 <= d < 61,
    ensures
        drawn_from(path_of_indices(a, b, c, d), PATH_CHARSET@),
{
    let p = path_of_indices(a, b, c, d);
    assert forall|i: int| 0 <= i < p.len() implies PATH_CHARSET@.contains(#[trigger] p[i]) by {
        if i == 0 {
            assert(PATH_CHARSET@[a] == p[i]);
        } else if i == 1 {
            assert(PATH_CHARSET@[b] == p[i]);
        } else if i == 2 {
            assert(PATH_CHARSET@[c] == p[i]);
        } else {
            assert(PATH_CHARSET@[d] == p[i]);
        }
    }
}

/// The short path made of the path characters at positions `a`, `b`, `c`, `d`.
fn path_at(a: usize, b: usize, c: usize, d: usize) -> (r: String)
    requires
        PATH_CHARSET@.len() == 61,
        a < 61 && b < 61 && c < 61 && d < 61,
    ensures
        r@ == path_of_indices(a as int, b as int, c as int, d as int),
{
    let mut p = String::new();
    p.append(PATH_CHARSET.substring_char(a, a + 1));
    p.append(PATH_CHARSET.substring_char(b, b + 1));
    p.append(PATH_CHARSET.substring_char(c, c + 1));
    p.append(PATH_CHARSET.substring_char(d, d + 1));
    assert(p@ =~= path_of_indices(a as int, b as int, c as int, d as int));
    p
}

impl Service {
    /// Stores an uploaded file for the file item at `path`. Managers, the
    /// item's creator and the guest holding the item's upload session may
    /// upload; the guest's session ends with the upload. Returns the name of
    /// the file that the bytes are to be written to.
    pub fn upload_file(&mut self, path: &str, key: Option<&str>, data: Option<&[u8]>, now: i64) -> (r:
        Result<Uploaded, ApiError>)
        requires
            old(self).wf(),
        ensures
            final(self).wf(),
            final(self).store.users@ == old(self).store.users@,
            final(self).store.logs@ == old(self).store.logs@,
            final(self).store.items@.len() == old(self).store.items@.len(),
            r is Err ==> final(self).store.items@ == old(self).store.items@ && final(self).tokens
                == old(self).tokens,
            upload_refusal(*old(self), path@, opt_seq(key), data is Some, now) matches Some(st)
                ==> fails_with(r, st),
            upload_refusal(*old(self), path@, opt_seq(key), data is Some, now) is None ==> r is Ok,
            r matches Ok(up) ==> uploaded(*old(self), *final(self), up, path@, key->0@, data->0@),
    {
        let k = match self.store.find_item(path) {
            Some(k) => k,
            None => return Err(fail(404, "Item not found")),
        };
        proof {
            assert forall|j: int|
                0 <= j < self.store.items@.len() && #[trigger] self.store.items@[j].short_path@
                    == path@ implies j == k by {}
        }
        proof {
            assert(0 <= k < old(self).store.items@.len() && old(self).store.items@[k as int].short_path@ == path@);
            assert(path_index(old(self).store.items@, path@) == k);
        }
        let key = match key {
            Some(t) => t,
            None => return Err(fail(401, "Unauthorized")),
        };
        let token = match self.tokens.get(key) {
            Some(t) => t,
            None => return Err(fail(401, "Unauthorized")),
        };
        if token.is_expired_at(now) {
            return Err(fail(401, "Unauthorized"));
        }
        let (descriptor, uploader): (i64, String) = if !token.temporary {
            match self.store.find_user(token.user_id.as_str()) {
                Some(u) => {
                    proof {
                        assert(0 <= u < self.store.users@.len() && self.store.users@[u as int].id@ == token.user_id@);
                        assert forall|v: int|
                            0 <= v < self.store.users@.len() && self.store.users@[v].id@
                                == token.user_id@ implies v == u by {
                            assert(self.store.users@[v].id@ == self.store.users@[u as int].id@);
                        }
                    }
                    (self.store.users[u].descriptor, self.store.users[u].id.clone())
                },
                None => return Err(fail(401, "Unauthorized")),
            }
        } else {
            (0, token.user_id.clone())
        };
        let is_creator = match &self.store.items[k].creator {
            Some(c) => text_eq(c.as_str(), uploader.as_str()),
            None => false,
        };
        let manager = descriptor.contains(UserPermission::Manage);
        proof {
            if token.temporary {
                assert(0i64 & 1i64 == 0i64) by (bit_vector);
            }
        }
        if !manager && !is_creator {
            return Err(fail(403, "No sufficient permission"));
        }
        proof {
            let t = old(self).tokens.view()[key@];
            assert(t == token);
            if !token.temporary {
                let u = choose|u: int|
                    0 <= u < self.store.users@.len() && self.store.users@[u].id@ == token.user_id@
                        && self.store.users@[u].descriptor == descriptor;
                assert(may_modify(self.store.users@[u].descriptor, t.user_id@, self.store.items@[k as int]));
            }
        }
        if self.store.items[k].item_type != ItemType::File {
            return Err(fail(409, "Item is not a File"));
        }
        let bytes = match data {
            Some(b) => b,
            None => return Err(fail(400, "No part named 'file' uploaded")),
        };
        let (ext, img): (String, bool) = match infer_type(bytes) {
            Some((e, m)) => {
                proof {
                    reveal_strlit("image");
                }
                let is_image = m.unicode_len() >= 5 && text_eq(
                    m.as_str().substring_char(0, 5),
                    "image",
                );
                (e, is_image)
            },
            None => (String::from_str("bin"), false),
        };
        let mut suffix = String::from_str(".");
        suffix.append(ext.as_str());
        let stem = time_ordered_uuid();
        let filename = self.store.fresh_payload_name(stem, suffix.as_str());
        proof {
            reveal_strlit(".");
            let n = choose|n: nat| filename@ == stem@ + #[trigger] pluses(n) + suffix@;
            assert(filename@.subrange(filename@.len() - suffix@.len(), filename@.len() as int)
                =~= "."@ + ext@);
            assert((ext@, img) == upload_kind(bytes@));
        }
        let id = self.store.items[k].id.clone();
        self.store.update_item_data(id.as_str(), filename.as_str());
        self.store.update_item_img(id.as_str(), img);
        proof {
            assert forall|i: int, j: int|
                0 <= i < self.store.items@.len() && 0 <= j < self.store.items@.len() && i != j
                implies self.store.items@[i].short_path@ != self.store.items@[j].short_path@ by {
                assert(old(self).store.items@[i].short_path@ != old(self).store.items@[j].short_path@);
            }
        }
        let view = ItemSimplified::from_item(&self.store.items[k]);
        if token.temporary {
            self.tokens.remove(key);
        }
        Ok(Uploaded { item: view, filename, session_ended: token.temporary })
    }

    /// A page of the items created by `user`, or by the caller when no user is
    /// named, newest first; only image payloads where `img_only` is set. Managers may
    /// list anyone's items, other users only their own.
    pub fn get_user_items(
        &self,
        key: Option<&str>,
        user: Option<&str>,
        img_only: bool,
        offset: usize,
        limit: usize,
        now: i64,
    ) -> (r:
        Result<Vec<ItemSimplified>, ApiError>)
        requires
            self.wf(),
        ensures
            signed_out(self.tokens.view(), self.store.users@, opt_seq(key), true, now) ==> fails_with(r, 401),
            forall|u: int|
                holder(self.tokens.view(), self.store.users@, opt_seq(key), true, now, u) ==> {
                    let me = self.store.users@[u];
                    if user matches Some(x) && x@ != me.id@ && !has_permission(
                        me.descriptor,
                        UserPermission::Manage,
                    ) {
                        fails_with(r, 403)
                    } else {
                        r matches Ok(v) && newest_first(v@) && lists(
                            v@,
                            page(
                                listed(
                                    self.store.items@,
                                    Some(
                                        match user {
                                            Some(x) => x@,
                                            None => me.id@,
                                        },
                                    ),
                                    img_only,
                                ),
                                offset as int,
                                limit as int,
                            ),
                        )
                    }
                },
    {
        let u = match self.current_user(key, true, now) {
            Some(u) => u,
            None => return Err(fail(401, "Invalid or missing token")),
        };
        let target: &str = match user {
            Some(x) => {
                if !text_eq(x, self.store.users[u].id.as_str())
                    && !self.store.users[u].descriptor.contains(UserPermission::Manage) {
                    return Err(fail(403, "Insufficient permission"));
                }
                x
            },
            None => self.store.users[u].id.as_str(),
        };
        Ok(self.store.list_items(Some(target), img_only, offset, limit))
    }

    /// A page of all items, newest first; for managers only.
    pub fn get_all_items(&self, key: Option<&str>, offset: usize, limit: usize, now: i64) -> (r: Result<
        Vec<ItemSimplified>,
        ApiError,
    >)
        requires
            self.wf(),
        ensures
            signed_out(self.tokens.view(), self.store.users@, opt_seq(key), true, now) ==> fails_with(r, 401),
            forall|u: int|
                holder(self.tokens.view(), self.store.users@, opt_seq(key), true, now, u) ==> if has_permission(
                    self.store.users@[u].descriptor,
                    UserPermission::Manage,
                ) {
                    r matches Ok(v) && newest_first(v@) && lists(
                        v@,
                        page(listed(self.store.items@, None, false), offset as int, limit as int),
                    )
                } else {
                    fails_with(r, 403)
                },
    {
        let u = match self.current_user(key, true, now) {
            Some(u) => u,
            None => return Err(fail(401, "Unauthorized")),
        };
        if !self.store.users[u].descriptor.contains(UserPermission::Manage) {
            return Err(fail(403, "Insufficient permission"));
        }
        Ok(self.store.list_items(None, false, offset, limit))
    }
}

/// Whether an item is listed for `creator` (any creator where `None`), and
/// is an image where `img_only` is set.
pub open spec fn listing_pred(creator: Option<Seq<char>>, img_only: bool) -> spec_fn(Item) -> bool {
    |it: Item|
        (match creator {
            Some(c) => it.creator matches Some(x) && x@ == c,
            None => true,
        }) && (!img_only || it.img)
}

/// The items listed for `creator`, newest first: in the reverse of the order
/// in which they were created.
pub open spec fn listed(items: Seq<Item>, creator: Option<Seq<char>>, img_only: bool) -> Seq<Item> {
    items.reverse().filter(listing_pred(creator, img_only))
}

/// Whether the views `v` show the items `items`, in order.
pub open spec fn lists(v: Seq<ItemSimplified>, items: Seq<Item>) -> bool {
    v.len() == items.len() && forall|i: int| 0 <= i < v.len() ==> simplifies(#[trigger] v[i], items[i])
}

impl crate::store::ItemStore {
    /// The items listed for `creator`, newest first.
    pub fn list_items(&self, creator: Option<&str>, img_only: bool, offset: usize, limit: usize) -> (r:
        Vec<ItemSimplified>)
        requires
            self.wf(),
        ensures
            newest_first(r@),
            lists(r@, page(listed(self.items@, opt_seq(creator), img_only), offset as int, limit as int)),
    {
        let ghost pred = listing_pred(opt_seq(creator), img_only);
        let n = self.items.len();
        let mut out: Vec<ItemSimplified> = Vec::new();
        let mut seen: usize = 0;
        let mut i: usize = n;
        while i > 0
            invariant
                i <= n == self.items@.len(),
                pred == listing_pred(opt_seq(creator), img_only),
                seen == self.items@.subrange(i as int, n as int).reverse().filter(pred).len(),
                seen <= n - i,
                created_in_order(self.items@),
                newest_first(out@),
                forall|a: int, j: int|
                    0 <= a < out@.len() && 0 <= j < i ==> #[trigger] out@[a].created_at
                        >= #[trigger] self.items@[j].created_at,
                lists(
                    out@,
                    page(
                        self.items@.subrange(i as int, n as int).reverse().filter(pred),
                        offset as int,
                        limit as int,
                    ),
                ),
            decreases i,
        {
            i = i - 1;
            let ghost before = self.items@.subrange(i + 1, n as int).reverse();
            let ghost now_seen = self.items@.subrange(i as int, n as int).reverse();
            proof {
                assert(now_seen.drop_last() =~= before);
                assert(now_seen.last() == self.items@[i as int]);
                crate::store::lemma_filter_step(now_seen, pred);
                lemma_page_push(before.filter(pred), self.items@[i as int], offset as int, limit as int);
            }
            let it = &self.items[i];
            let by_creator = match creator {
                Some(c) => match &it.creator {
                    Some(x) => text_eq(x.as_str(), c),
                    None => false,
                },
                None => true,
            };
            if by_creator && (!img_only || it.img) {
                if seen >= offset && seen - offset < limit {
                    out.push(ItemSimplified::from_item(it));
                }
                seen = seen + 1;
            }
        }
        proof {
            assert(self.items@.subrange(0, n as int) =~= self.items@);
        }
        out
    }
}

/// Whether the views come newest first: by creation instant, latest first.
pub open spec fn newest_first(v: Seq<ItemSimplified>) -> bool {
    forall|a: int, b: int|
        0 <= a < b < v.len() ==> #[trigger] v[a].created_at >= #[trigger] v[b].created_at
}

/// The part of `s` that a page of `limit` entries from `offset` on shows.
pub open spec fn page<A>(s: Seq<A>, offset: int, limit: int) -> Seq<A> {
    let start = if offset < s.len() { offset } else { s.len() as int };
    let end = if offset + limit < s.len() { offset + limit } else { s.len() as int };
    s.subrange(start, if end < start { start } else { end })
}

proof fn lemma_page_push<A>(s: Seq<A>, x: A, offset: int, limit: int)
    requires
        offset >= 0,
        limit >= 0,
    ensures
        page(s.push(x), offset, limit) == if offset <= s.len() < offset + limit {
            page(s, offset, limit).push(x)
        } else {
            page(s, offset, limit)
        },
{
    if offset <= s.len() < offset + limit {
        assert(page(s.push(x), offset, limit) =~= page(s, offset, limit).push(x));
    } else {
        assert(page(s.push(x), offset, limit) =~= page(s, offset, limit));
    }
}

/// The position of the item at path `p`, where there is one.
pub open spec fn path_index(items: Seq<Item>, p: Seq<char>) -> int {
    choose|k: int| 0 <= k < items.len() && items[k].short_path@ == p
}

/// The status with which `upload_file` refuses, or `None` where it goes on.
pub open spec fn upload_refusal(
    s: Service,
    path: Seq<char>,
    key: Option<Seq<char>>,
    has_data: bool,
    now: i64,
) -> Option<u16> {
    if !has_path(s.store.items@, path) {
        Some(404)
    } else if key is None || !s.tokens.view().contains_key(key->0) || s.tokens.view()[key->0].expires_at
        < now {
        Some(401)
    } else {
        let t = s.tokens.view()[key->0];
        let it = s.store.items@[path_index(s.store.items@, path)];
        if !t.temporary && !has_user_id(s.store.users@, t.user_id@) {
            Some(401)
        } else if !(if t.temporary {
            it.creator matches Some(c) && c@ == t.user_id@
        } else {
            exists|u: int|
                0 <= u < s.store.users@.len() && s.store.users@[u].id@ == t.user_id@ && may_modify(
                    s.store.users@[u].descriptor,
                    t.user_id@,
                    it,
                )
        }) {
            Some(403)
        } else if it.item_type != ItemType::File {
            Some(409)
        } else if !has_data {
            Some(400)
        } else {
            None
        }
    }
}

/// Whether `up` and the state `new` are what a successful upload of `bytes`
/// to the item at `path` with session `key` gives.
pub open spec fn uploaded(
    old: Service,
    new: Service,
    up: Uploaded,
    path: Seq<char>,
    key: Seq<char>,
    bytes: Seq<u8>,
) -> bool {
    let it = old.store.items@[path_index(old.store.items@, path)];
    let (ext, img) = upload_kind(bytes);
    &&& up.filename@.len() >= 36 + 1 + ext.len()
    &&& up.filename@.subrange(up.filename@.len() - (1 + ext.len()), up.filename@.len() as int)
        == "."@ + ext
    &&& forall|j: int|
        0 <= j < old.store.items@.len() ==> old.store.items@[j].data@ != up.filename@
    &&& forall|j: int|
        0 <= j < old.store.items@.len() ==> if old.store.items@[j].id@ == it.id@ {
            &&& #[trigger] new.store.items@[j] == Item {
                data: new.store.items@[j].data,
                img,
                ..old.store.items@[j]
            }
            &&& new.store.items@[j].data@ == up.filename@
        } else {
            new.store.items@[j] == old.store.items@[j]
        }
    &&& up.session_ended == old.tokens.view()[key].temporary
    &&& if up.session_ended {
        new.tokens.view() == old.tokens.view().remove(key)
    } else {
        new.tokens == old.tokens
    }
}

/// The status with which `create_item` refuses, or `None` where it goes on.
pub open spec fn create_refusal(
    s: Service,
    path: Seq<char>,
    key: Option<Seq<char>>,
    upload: ApiItemUpload,
    verification: Verification,
    now: i64,
) -> Option<u16> {
    let guest = s.turnstile.enabled && verification is Passed;
    if upload.expires_at matches Some(e) && utc_instant(e@) is None {
        Some(400)
    } else if has_path(s.store.items@, path) {
        Some(409)
    } else if s.turnstile.enabled && verification is Failed {
        Some(422)
    } else if s.turnstile.enabled && verification is Unreachable {
        Some(500)
    } else if guest && path != RANDOM_PATH@ {
        Some(403)
    } else if guest && upload.item_type != ItemType::File {
        Some(403)
    } else if !guest && signed_out(s.tokens.view(), s.store.users@, key, true, now) {
        Some(401)
    } else if exists|u: int|
        holder(s.tokens.view(), s.store.users@, key, true, now, u) && !may_create(
            s.store.users@[u].descriptor,
            s.store.users@[u].id@,
            upload.item_type,
        ) {
        Some(403)
    } else {
        None
    }
}

/// Whether `c` and the state `new` are what a successful `create_item` gives.
pub open spec fn created(
    old: Service,
    new: Service,
    c: Created,
    path: Seq<char>,
    key: Option<Seq<char>>,
    upload: ApiItemUpload,
    verification: Verification,
    now: i64,
) -> bool {
    let guest = old.turnstile.enabled && verification is Passed;
    let it = new.store.items@.last();
    &&& new.store.items@.len() == old.store.items@.len() + 1
    &&& new.store.items@.drop_last() == old.store.items@
    &&& simplifies(c.item, it)
    &&& it.item_type == upload.item_type
    &&& it.expires_at == (match upload.expires_at {
        Some(e) => utc_instant(e@),
        None => None,
    })
    &&& it.max_visits == upload.max_visits
    &&& it.visits == 0
    &&& it.created_at == creation_instant(old.store.items@, now)
    &&& it.available
    &&& it.should_drop_at is None
    &&& match (it.password_hash, upload.password) {
        (Some(h), Some(p)) => h@ == sha256_hex(p@),
        (None, None) => true,
        _ => false,
    }
    &&& opt_holds(
        it.extra_data,
        match upload.extra_data {
            Some(e) => Some(e@),
            None => None,
        },
    )
    &&& (path == RANDOM_PATH@ ==> it.short_path@.len() == 4 && drawn_from(
        it.short_path@,
        PATH_CHARSET@,
    ) && !has_path(old.store.items@, it.short_path@))
    &&& (path != RANDOM_PATH@ ==> it.short_path@ == path)
    &&& match upload.item_type {
        ItemType::Link => it.data@ == upload.data@ && c.code_file is None,
        ItemType::Code => c.code_file matches Some(f) && f@ == it.data@ && f@.len() >= 40
            && f@.subrange(f@.len() - 4, f@.len() as int) == ".txt"@ && forall|j: int|
            0 <= j < old.store.items@.len() ==> old.store.items@[j].data@ != f@,
        ItemType::File => it.data@ == PLACEHOLDER_FILE@ && c.code_file is None,
    }
    &&& (guest ==> (it.creator matches Some(g) && g@.len() == 42 && g@.subrange(0, 6)
        == "guest-"@))
    &&& (!guest ==> exists|u: int|
        holder(old.tokens.view(), old.store.users@, key, true, now, u) && (it.creator matches Some(
            c,
        ) && c@ == old.store.users@[u].id@))
    &&& if guest {
        &&& c.guest_session is Some
        &&& it.creator is Some
        &&& opened(
            old.tokens.view(),
            new.tokens.view(),
            c.guest_session->0@,
            it.creator->0@,
            true,
            now,
        )
    } else {
        c.guest_session is None && new.tokens == old.tokens
    }
}

} // verus!
