//! The API's decisions: who may do what, and what each call changes.
use vstd::prelude::*;
use crate::deps::{random_uuid, sha256_digest_hex, sha256_hex};
use crate::model::{text_eq, Token, TurnstileConfig, User, ADMIN_USER_ID};
use crate::permission::{bits_of, descriptor_of, has_permission, ToPermission, UserPermission};
use crate::store::{has_user_email, has_user_id, ItemStore};
use crate::token_store::{opened, TokenStore};
use crate::views::{fail, shows_user, status_of, ApiError, ApiUser};

verus! {

/// The email of the administrator's account when it is first created.
pub const ADMIN_EMAIL: &'static str = "admin@example.com";

/// The views of an optional text.
pub open spec fn opt_seq(s: Option<&str>) -> Option<Seq<char>> {
    match s {
        Some(t) => Some(t@),
        None => None,
    }
}

/// Whether the session `key` belongs to the user at position `k`: the key is
/// known, its token names that user and, where `check_expiry` is set, it has
/// not expired at `now`.
pub open spec fn holder(
    tokens: Map<Seq<char>, Token>,
    users: Seq<User>,
    key: Option<Seq<char>>,
    check_expiry: bool,
    now: i64,
    k: int,
) -> bool {
    &&& key is Some
    &&& tokens.contains_key(key->0)
    &&& (check_expiry ==> tokens[key->0].expires_at >= now)
    &&& 0 <= k < users.len()
    &&& users[k].id@ == tokens[key->0].user_id@
}

/// Whether the session `key` belongs to no user.
pub open spec fn signed_out(
    tokens: Map<Seq<char>, Token>,
    users: Seq<User>,
    key: Option<Seq<char>>,
    check_expiry: bool,
    now: i64,
) -> bool {
    forall|k: int| !holder(tokens, users, key, check_expiry, now, k)
}

/// What signing in at `now` with `email` and password digest `digest` gives:
/// a new session for the user with that email and digest, or a refusal when
/// no user has them.
pub open spec fn sign_in(
    old: Service,
    new: Service,
    email: Seq<char>,
    digest: Seq<char>,
    now: i64,
    r: Result<(ApiUser, String), ApiError>,
) -> bool {
    if exists|j: int|
        0 <= j < old.store.users@.len() && old.store.users@[j].email@ == email
            && old.store.users@[j].password@ == digest {
        r matches Ok(v) && {
            let (user, session) = v;
            &&& user.email@ == email
            &&& opened(old.tokens.view(), new.tokens.view(), session@, user.id@, false, now)
            &&& exists|j: int|
                0 <= j < old.store.users@.len() && old.store.users@[j].email@ == email
                    && shows_user(user, old.store.users@[j])
        }
    } else {
        fails_with(r, 401)
    }
}

/// Whether `r` is a refusal with HTTP status `status`.
pub open spec fn fails_with<T>(r: Result<T, ApiError>, status: u16) -> bool {
    r matches Err(e) && status_of(e) == status
}

/// The text of a login field, if it is one.
pub open spec fn field_text(f: LoginField) -> Option<Seq<char>> {
    match f {
        LoginField::Text(t) => Some(t@),
        _ => None,
    }
}

/// The state of the service: its tables, its sessions and its verification settings.
pub struct Service {
    pub store: ItemStore,
    pub tokens: TokenStore,
    pub turnstile: TurnstileConfig,
}

/// A field of a login request.
#[derive(Debug)]
pub enum LoginField {
    Missing,
    /// Present, but not a text.
    NotText,
    Text(String),
}

impl Service {
    pub open spec fn wf(&self) -> bool {
        self.store.wf()
    }

    pub fn new(turnstile: TurnstileConfig) -> (r: Service)
        ensures
            r.wf(),
            r.store.items@.len() == 0,
            r.store.users@.len() == 0,
            r.store.logs@.len() == 0,
            r.tokens.view() == Map::<Seq<char>, Token>::empty(),
    {
        Service { store: ItemStore::new(), tokens: TokenStore::new(), turnstile }
    }

    /// The position of the user that the session `key` belongs to.
    pub fn current_user(&self, key: Option<&str>, check_expiry: bool, now: i64) -> (r: Option<
        usize,
    >)
        requires
            self.wf(),
        ensures
            r matches Some(k) ==> holder(
                self.tokens.view(),
                self.store.users@,
                opt_seq(key),
                check_expiry,
                now,
                k as int,
            ),
            r is None ==> signed_out(
                self.tokens.view(),
                self.store.users@,
                opt_seq(key),
                check_expiry,
                now,
            ),
            r matches Some(k0) ==> forall|k: int|
                holder(self.tokens.view(), self.store.users@, opt_seq(key), check_expiry, now, k)
                    ==> k == k0,
    {
        let key = match key {
            Some(k) => k,
            None => return None,
        };
        let token = match self.tokens.get(key) {
            Some(t) => t,
            None => return None,
        };
        if check_expiry && token.is_expired_at(now) {
            return None;
        }
        let r = self.store.find_user(token.user_id.as_str());
        proof {
            if r is Some {
                let k0 = r->0 as int;
                assert forall|k: int|
                    holder(
                        self.tokens.view(),
                        self.store.users@,
                        opt_seq(Some(key)),
                        check_expiry,
                        now,
                        k,
                    ) implies k == k0 by {
                    assert(self.store.users@[k].id@ == self.store.users@[k0].id@);
                }
            }
        }
        r
    }

    /// The signed-in user's own account.
    pub fn user_info(&self, key: Option<&str>, now: i64) -> (r: Result<ApiUser, ApiError>)
        requires
            self.wf(),
        ensures
            signed_out(self.tokens.view(), self.store.users@, opt_seq(key), true, now) ==> fails_with(r, 401),
            forall|k: int|
                holder(self.tokens.view(), self.store.users@, opt_seq(key), true, now, k)
                    ==> (r matches Ok(v) && shows_user(v, self.store.users@[k])),
    {
        match self.current_user(key, true, now) {
            Some(k) => Ok(ApiUser::from_user(&self.store.users[k])),
            None => Err(fail(401, "Unauthorized")),
        }
    }

    /// All users; for managers only.
    pub fn get_users(&self, key: Option<&str>, now: i64) -> (r: Result<Vec<ApiUser>, ApiError>)
        requires
            self.wf(),
        ensures
            signed_out(self.tokens.view(), self.store.users@, opt_seq(key), true, now) ==> fails_with(r, 401),
            forall|k: int|
                holder(self.tokens.view(), self.store.users@, opt_seq(key), true, now, k) ==> {
                    if has_permission(self.store.users@[k].descriptor, UserPermission::Manage) {
                        r matches Ok(v) && v@.len() == self.store.users@.len() && forall|i: int|
                            0 <= i < v@.len() ==> shows_user(#[trigger] v@[i], self.store.users@[i])
                    } else {
                        fails_with(r, 403)
                    }
                },
    {
        let k = match self.current_user(key, true, now) {
            Some(k) => k,
            None => return Err(fail(401, "Unauthorized")),
        };
        if !self.store.users[k].descriptor.contains(UserPermission::Manage) {
            return Err(fail(403, "Forbidden"));
        }
        let mut out: Vec<ApiUser> = Vec::new();
        let mut i: usize = 0;
        while i < self.store.users.len()
            invariant
                i <= self.store.users@.len(),
                out@.len() == i,
                forall|j: int| 0 <= j < i ==> shows_user(#[trigger] out@[j], self.store.users@[j]),
            decreases self.store.users@.len() - i,
        {
            out.push(ApiUser::from_user(&self.store.users[i]));
            i = i + 1;
        }
        Ok(out)
    }

    /// The account `id`; a user may see their own, a manager any.
    pub fn get_user(&self, key: Option<&str>, id: &str, now: i64) -> (r: Result<ApiUser, ApiError>)
        requires
            self.wf(),
        ensures
            signed_out(self.tokens.view(), self.store.users@, opt_seq(key), true, now) ==> fails_with(r, 401),
            forall|k: int|
                holder(self.tokens.view(), self.store.users@, opt_seq(key), true, now, k) ==> {
                    let me = self.store.users@[k];
                    if !has_permission(me.descriptor, UserPermission::Manage) && me.id@ != id@ {
                        fails_with(r, 403)
                    } else if !has_user_id(self.store.users@, id@) {
                        fails_with(r, 404)
                    } else {
                        r matches Ok(v) && v.id@ == id@ && exists|j: int|
                            0 <= j < self.store.users@.len() && shows_user(v, self.store.users@[j])
                    }
                },
    {
        let k = match self.current_user(key, true, now) {
            Some(k) => k,
            None => return Err(fail(401, "Unauthorized")),
        };
        if !self.store.users[k].descriptor.contains(UserPermission::Manage) && !text_eq(
            self.store.users[k].id.as_str(),
            id,
        ) {
            return Err(fail(403, "No sufficient permissions"));
        }
        match self.store.find_user(id) {
            Some(j) => Ok(ApiUser::from_user(&self.store.users[j])),
            None => Err(fail(404, "User not found")),
        }
    }

    /// Deletes the account `id`; a user may delete their own, a manager any
    /// but the administrator's.
    pub fn remove_user(&mut self, key: Option<&str>, id: &str, now: i64) -> (r: Result<ApiUser, ApiError>)
        requires
            old(self).wf(),
        ensures
            final(self).wf(),
            final(self).tokens == old(self).tokens,
            final(self).store.items@ == old(self).store.items@,
            user_removal(*old(self), *final(self), opt_seq(key), id@, now, r),
    {
        if text_eq(id, ADMIN_USER_ID) {
            return Err(fail(403, "Cannot remove root user"));
        }
        let k = match self.current_user(key, true, now) {
            Some(k) => k,
            None => return Err(fail(401, "Unauthorized")),
        };
        if !self.store.users[k].descriptor.contains(UserPermission::Manage) && !text_eq(
            self.store.users[k].id.as_str(),
            id,
        ) {
            return Err(fail(403, "No sufficient permissions"));
        }
        let j = match self.store.find_user(id) {
            Some(j) => j,
            None => return Err(fail(404, "User not found")),
        };
        let view = ApiUser::from_user(&self.store.users[j]);
        self.store.remove_user(id);
        proof {
            assert(old(self).store.users@[j as int].id@ == id@);
            assert(self.store.users@ == old(self).store.users@.remove(j as int));
            assert(shows_user(view, old(self).store.users@[j as int]));
        }
        Ok(view)
    }

    /// Creates an account; for managers only. The account gets a fresh id,
    /// the digest of `password`, and the union of the listed permissions.
    pub fn create_user(
        &mut self,
        key: Option<&str>,
        name: &str,
        email: &str,
        password: &str,
        descriptor: &Vec<UserPermission>,
        avatar: Option<&str>,
        now: i64,
    ) -> (r: Result<ApiUser, ApiError>)
        requires
            old(self).wf(),
        ensures
            final(self).wf(),
            final(self).tokens == old(self).tokens,
            final(self).store.items@ == old(self).store.items@,
            final(self).store.logs@ == old(self).store.logs@,
            r is Err ==> final(self).store.users@ == old(self).store.users@,
            signed_out(old(self).tokens.view(), old(self).store.users@, opt_seq(key), true, now)
                ==> fails_with(r, 401),
            forall|k: int|
                holder(old(self).tokens.view(), old(self).store.users@, opt_seq(key), true, now, k)
                    ==> {
                    if !has_permission(old(self).store.users@[k].descriptor, UserPermission::Manage) {
                        fails_with(r, 403)
                    } else if has_user_email(old(self).store.users@, email@) {
                        fails_with(r, 409)
                    } else {
                        r matches Ok(v) && {
                            let u = final(self).store.users@.last();
                            &&& final(self).store.users@.len() == old(self).store.users@.len() + 1
                            &&& final(self).store.users@.drop_last() == old(self).store.users@
                            &&& !has_user_id(old(self).store.users@, u.id@)
                            &&& u.id@.len() >= 36
                            &&& shows_user(v, u)
                            &&& u.name@ == name@
                            &&& u.email@ == email@
                            &&& u.password@ == sha256_hex(password@)
                            &&& u.descriptor == bits_of(descriptor@)
                            &&& u.created_at == now
                        }
                    }
                },
    {
        let k = match self.current_user(key, true, now) {
            Some(k) => k,
            None => return Err(fail(401, "Unauthorized")),
        };
        if !self.store.users[k].descriptor.contains(UserPermission::Manage) {
            return Err(fail(403, "Forbidden"));
        }
        if self.store.find_user_by_email(email).is_some() {
            return Err(fail(409, "Email already in use"));
        }
        let bits = descriptor_of(descriptor);
        let id = self.store.fresh_user_id(random_uuid().as_str());
        let digest = sha256_digest_hex(password);
        match self.store.create_user(id.as_str(), name, email, digest.as_str(), bits, avatar, now) {
            Ok(j) => Ok(ApiUser::from_user(&self.store.users[j])),
            Err(_) => Err(ApiError::Internal(String::from_str("the account could not be stored"))),
        }
    }

    /// Signs a user in: a session is opened when the email is known and the
    /// digest of the password matches the stored one. Returns the account and
    /// the new session's key.
    pub fn login(&mut self, email: LoginField, password: LoginField, now: i64) -> (r: Result<
        (ApiUser, String),
        ApiError,
    >)
        requires
            old(self).wf(),
        ensures
            final(self).wf(),
            final(self).store == old(self).store,
            r is Err ==> final(self).tokens.view() == old(self).tokens.view(),
            (email is Missing || password is Missing) ==> fails_with(r, 400),
            (email is NotText && !(password is Missing)) ==> fails_with(r, 400),
            (email is Text && password is NotText) ==> fails_with(r, 400),
            (email is Text && password is Text) ==> sign_in(
                *old(self),
                *final(self),
                field_text(email)->0,
                sha256_hex(field_text(password)->0),
                now,
                r,
            ),
    {
        let (m, p) = match (email, password) {
            (LoginField::Missing, _) => return Err(fail(400, "Invalid request")),
            (_, LoginField::Missing) => return Err(fail(400, "Invalid request")),
            (LoginField::NotText, _) => return Err(fail(400, "Invalid email format")),
            (_, LoginField::NotText) => return Err(fail(400, "Invalid password format")),
            (LoginField::Text(m), LoginField::Text(p)) => (m, p),
        };
        let digest = sha256_digest_hex(p.as_str());
        self.login_with_digest(m.as_str(), digest.as_str(), now)
    }

    /// Signs in the user with email `email` when `digest` is their stored
    /// password digest, opening a session at `now`.
    pub fn login_with_digest(&mut self, email: &str, digest: &str, now: i64) -> (r: Result<
        (ApiUser, String),
        ApiError,
    >)
        requires
            old(self).wf(),
        ensures
            final(self).wf(),
            final(self).store == old(self).store,
            r is Err ==> final(self).tokens.view() == old(self).tokens.view(),
            sign_in(*old(self), *final(self), email@, digest@, now, r),
    {
        let j = match self.store.find_user_by_email(email) {
            Some(j) => j,
            None => return Err(fail(401, "Invalid email or password")),
        };
        proof {
            assert forall|i: int|
                0 <= i < self.store.users@.len() && self.store.users@[i].email@ == email@ implies i
                == j by {}
        }
        if !text_eq(self.store.users[j].password.as_str(), digest) {
            return Err(fail(401, "Invalid email or password"));
        }
        let user = ApiUser::from_user(&self.store.users[j]);
        let session = self.tokens.open_session(self.store.users[j].id.as_str(), false, now);
        Ok((user, session))
    }

    /// Sets the administrator's password to `password`, creating the
    /// administrator's account at `now`, with every permission bit, if it does
    /// not exist yet.
    pub fn reset_admin_password(&mut self, password: &str, now: i64) -> (r: Result<(), ApiError>)
        requires
            old(self).wf(),
        ensures
            final(self).wf(),
            final(self).tokens == old(self).tokens,
            final(self).store.items@ == old(self).store.items@,
            has_user_id(old(self).store.users@, ADMIN_USER_ID@) ==> r is Ok,
            !has_user_email(old(self).store.users@, ADMIN_EMAIL@) ==> r is Ok,
            !has_user_id(old(self).store.users@, ADMIN_USER_ID@) && r is Ok ==> exists|j: int|
                0 <= j < final(self).store.users@.len() && final(self).store.users@[j].id@
                    == ADMIN_USER_ID@ && final(self).store.users@[j].email@ == ADMIN_EMAIL@
                    && final(self).store.users@[j].descriptor == i64::MAX,
            r is Ok ==> exists|j: int|
                0 <= j < final(self).store.users@.len() && final(self).store.users@[j].id@
                    == ADMIN_USER_ID@ && final(self).store.users@[j].password@ == sha256_hex(
                    password@,
                ),
    {
        let digest = sha256_digest_hex(password);
        if self.store.admin_user_exists() {
            let r = self.store.change_user_password(ADMIN_USER_ID, digest.as_str());
            proof {
                let j = choose|j: int|
                    0 <= j < old(self).store.users@.len() && old(self).store.users@[j].id@
                        == ADMIN_USER_ID@;
                assert(self.store.users@[j].password@ == digest@);
            }
            match r {
                Ok(()) => Ok(()),
                Err(_) => Err(ApiError::Internal(String::from_str("the administrator is missing"))),
            }
        } else {
            match self.store.create_user(
                ADMIN_USER_ID,
                "admin",
                ADMIN_EMAIL,
                digest.as_str(),
                i64::MAX,
                None,
                now,
            ) {
                Ok(_) => Ok(()),
                Err(_) => Err(
                    ApiError::Internal(String::from_str("the administrator's email is taken")),
                ),
            }
        }
    }

    /// Ends the session `key`, if there is one.
    pub fn logout(&mut self, key: Option<&str>)
        ensures
            final(self).store == old(self).store,
            key matches Some(k) ==> final(self).tokens.view() == old(self).tokens.view().remove(
                k@,
            ),
            key is None ==> final(self).tokens == old(self).tokens,
    {
        match key {
            Some(k) => self.tokens.remove(k),
            None => {},
        }
    }
}

/// What `remove_user` gives and changes: the caller of session `key` asks at
/// `now` to delete the account `id`, from state `old` to state `new`, with
/// result `r`. The administrator's account is never deleted, whoever asks.
pub open spec fn user_removal(
    old: Service,
    new: Service,
    key: Option<Seq<char>>,
    id: Seq<char>,
    now: i64,
    r: Result<ApiUser, ApiError>,
) -> bool {
    &&& r is Err ==> new.store.users@ == old.store.users@
    &&& if id == ADMIN_USER_ID@ {
        fails_with(r, 403)
    } else {
        &&& signed_out(old.tokens.view(), old.store.users@, key, true, now) ==> fails_with(r, 401)
        &&& forall|k: int|
            holder(old.tokens.view(), old.store.users@, key, true, now, k) ==> {
                let me = old.store.users@[k];
                if !has_permission(me.descriptor, UserPermission::Manage) && me.id@ != id {
                    fails_with(r, 403)
                } else if !has_user_id(old.store.users@, id) {
                    fails_with(r, 404)
                } else {
                    r matches Ok(v) && v.id@ == id && exists|j: int|
                        0 <= j < old.store.users@.len() && old.store.users@[j].id@ == id
                            && shows_user(v, old.store.users@[j]) && new.store.users@
                            == old.store.users@.remove(j)
                }
            }
    }
}

/// Deleting the administrator's account always fails as forbidden, whoever
/// asks, and leaves the accounts as they were.
pub proof fn lemma_admin_cannot_be_removed(
    old: Service,
    new: Service,
    key: Option<Seq<char>>,
    now: i64,
    r: Result<ApiUser, ApiError>,
)
    requires
        user_removal(old, new, key, ADMIN_USER_ID@, now, r),
    ensures
        fails_with(r, 403),
        new.store.users@ == old.store.users@,
{
}

} // verus!
