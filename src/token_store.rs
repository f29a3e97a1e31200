//! The in-memory session table: session key to token.
use vstd::prelude::*;
use dashmap::DashMap;
use crate::deps::current_instant;
use crate::store::pluses;
use crate::model::{later, Token, TOKEN_LIFETIME_SECS};
use crate::util::{drawn_from, random_password, PASSWORD_CHARSET};

verus! {

#[verifier::external_type_specification]
#[verifier::external_body]
#[verifier::reject_recursive_types(K)]
#[verifier::reject_recursive_types(V)]
#[verifier::reject_recursive_types(S)]
pub struct ExDashMap<K, V, S>(DashMap<K, V, S>);

/// The sessions a map holds, by key.
pub uninterp spec fn session_entries(m: DashMap<String, Token>) -> Map<Seq<char>, Token>;

/// Relies on `DashMap::new`: the new map is empty.
#[verifier::external_body]
fn new_session_map() -> (r: DashMap<String, Token>)
    ensures
        session_entries(r).dom().len() == 0,
        session_entries(r).dom().finite(),
{
    DashMap::new()
}

/// Relies on `DashMap::insert`: the key now maps to the token, replacing any
/// earlier one.
#[verifier::external_body]
fn session_map_insert(m: &mut DashMap<String, Token>, key: String, token: Token)
    ensures
        session_entries(*final(m)) == session_entries(*old(m)).insert(key@, token),
{
    m.insert(key, token);
}

/// Relies on `DashMap::get`: a copy of the token the key maps to, if any.
#[verifier::external_body]
fn session_map_get(m: &DashMap<String, Token>, key: &str) -> (r: Option<Token>)
    ensures
        r matches Some(t) ==> session_entries(*m).contains_key(key@) && t == session_entries(
            *m,
        )[key@],
        r is None ==> !session_entries(*m).contains_key(key@),
{
    m.get(key).map(|t| t.value().clone())
}

/// Relies on `DashMap::remove`: the key no longer maps to anything.
#[verifier::external_body]
fn session_map_remove(m: &mut DashMap<String, Token>, key: &str)
    ensures
        session_entries(*final(m)) == session_entries(*old(m)).remove(key@),
{
    m.remove(key);
}

/// Relies on `DashMap::retain`: keeps exactly the tokens that the sweep at
/// `now` keeps.
#[verifier::external_body]
fn session_map_retain_live(m: &mut DashMap<String, Token>, now: i64)
    ensures
        session_entries(*final(m)) == swept_sessions(session_entries(*old(m)), now),
{
    m.retain(|_, t| t.survives_sweep(now));
}

/// The sessions left after the sweep at `now`: those that expire after it.
pub open spec fn swept_sessions(m: Map<Seq<char>, Token>, now: i64) -> Map<Seq<char>, Token> {
    m.restrict(m.dom().filter(|k: Seq<char>| m[k].expires_at > now))
}

/// Relies on `DashMap::len`: the number of sessions the map holds, which
/// are finitely many.
#[verifier::external_body]
fn session_map_len(m: &DashMap<String, Token>) -> (r: usize)
    ensures
        holds_count(session_entries(*m), r as nat),
{
    m.len()
}

/// Whether `m` holds exactly `n` sessions.
pub open spec fn holds_count(m: Map<Seq<char>, Token>, n: nat) -> bool {
    m.dom().finite() && m.dom().len() == n
}

/// The sessions of the service, each under an opaque random key. The map is
/// only reached through the methods below.
pub struct TokenStore {
    sessions: DashMap<String, Token>,
}

impl TokenStore {
    pub closed spec fn view(&self) -> Map<Seq<char>, Token> {
        session_entries(self.sessions)
    }

    pub fn new() -> (r: TokenStore)
        ensures
            r.view() == Map::<Seq<char>, Token>::empty(),
    {
        TokenStore { sessions: new_session_map() }
    }

    pub fn insert(&mut self, key: String, token: Token)
        ensures
            final(self).view() == old(self).view().insert(key@, token),
    {
        session_map_insert(&mut self.sessions, key, token);
    }

    pub fn get(&self, key: &str) -> (r: Option<Token>)
        ensures
            r matches Some(t) ==> self.view().contains_key(key@) && t == self.view()[key@],
            r is None ==> !self.view().contains_key(key@),
    {
        session_map_get(&self.sessions, key)
    }

    pub fn remove(&mut self, key: &str)
        ensures
            final(self).view() == old(self).view().remove(key@),
    {
        session_map_remove(&mut self.sessions, key);
    }

    /// Drops every session that does not expire after `now`.
    pub fn clear_expired(&mut self, now: i64)
        ensures
            final(self).view() == swept_sessions(old(self).view(), now),
            forall|k: Seq<char>| #[trigger]
                final(self).view().contains_key(k) ==> final(self).view()[k].expires_at > now,
    {
        session_map_retain_live(&mut self.sessions, now);
    }

    /// The user that the session `key` authenticates at `now`: the session must
    /// exist and not have expired.
    pub fn session_user(&self, key: &str, now: i64) -> (r: Option<String>)
        ensures
            r matches Some(u) ==> self.view().contains_key(key@) && u@ == self.view()[key@].user_id@
                && self.view()[key@].expires_at >= now,
            r is None ==> !self.view().contains_key(key@) || self.view()[key@].expires_at < now,
    {
        match self.get(key) {
            Some(t) => if t.is_expired_at(now) {
                None
            } else {
                Some(t.user_id)
            },
            None => None,
        }
    }

    /// Opens a session for `user_id` at `now` under a new random key that no
    /// session has, and returns the key.
    pub fn open_session(&mut self, user_id: &str, temporary: bool, now: i64) -> (r: String)
        ensures
            opened(old(self).view(), final(self).view(), r@, user_id@, temporary, now),
    {
        let drawn = random_password();
        self.open_session_with_key(drawn, user_id, temporary, now)
    }

    /// Opens a session for `user_id` at `now` under `key`, lengthened with `+`
    /// until no session has it, and returns the key used.
    pub fn open_session_with_key(&mut self, key: String, user_id: &str, temporary: bool, now: i64) -> (r:
        String)
        requires
            key@.len() == 16,
            drawn_from(key@, PASSWORD_CHARSET@),
        ensures
            opened(old(self).view(), final(self).view(), r@, user_id@, temporary, now),
            exists|n: nat| r@ == key@ + #[trigger] pluses(n),
            !old(self).view().contains_key(key@) ==> r@ == key@,
    {
        let count = session_map_len(&self.sessions);
        let ghost dom = self.view().dom();
        let ghost mut tried: Set<Seq<char>> = Set::empty();
        let ghost mut n: nat = 0;
        let mut cur = key.clone();
        proof {
            assert(cur@ =~= key@ + pluses(0));
        }
        loop
            invariant
                key@.len() == 16,
                drawn_from(key@, PASSWORD_CHARSET@),
                self.view() == old(self).view(),
                dom == self.view().dom(),
                dom.finite(),
                count == dom.len(),
                tried.finite(),
                tried.subset_of(dom),
                tried.len() == n,
                n > 0 ==> tried.contains(key@),
                cur@ == key@ + pluses(n),
                forall|t: Seq<char>| #[trigger] tried.contains(t) ==> t.len() < cur@.len(),
            decreases count - n,
        {
            if self.get(cur.as_str()).is_none() {
                let token = Token::issued_at(user_id.to_owned(), temporary, now);
                let k2 = cur.clone();
                self.insert(k2, token);
                proof {
                    assert(cur@.subrange(0, 16) =~= key@);
                    assert(final(self).view().dom() =~= old(self).view().dom().insert(cur@));
                    if n == 0 {
                        assert(cur@ =~= key@);
                    }
                }
                return cur;
            }
            proof {
                assert(!tried.contains(cur@));
                let t2 = tried.insert(cur@);
                vstd::set_lib::lemma_len_subset(t2, dom);
                tried = t2;
                n = n + 1;
                reveal_strlit("+");
            }
            cur.append("+");
            proof {
                assert(cur@ =~= key@ + pluses(n));
            }
        }
    }
}

/// Whether `new` is `old` with a new session under the unused `key`, for
/// `user_id`, issued at `now`; the other sessions are unchanged.
pub open spec fn opened(
    old: Map<Seq<char>, Token>,
    new: Map<Seq<char>, Token>,
    key: Seq<char>,
    user_id: Seq<char>,
    temporary: bool,
    now: i64,
) -> bool {
    &&& key.len() >= 16
    &&& drawn_from(key.subrange(0, 16), PASSWORD_CHARSET@)
    &&& !old.contains_key(key)
    &&& new.dom() == old.dom().insert(key)
    &&& new[key].user_id@ == user_id
    &&& new[key].temporary == temporary
    &&& new[key].expires_at == later(now, TOKEN_LIFETIME_SECS)
    &&& forall|k: Seq<char>| k != key && #[trigger] old.contains_key(k) ==> new[k] == old[k]
}

/// The periodic sweep of the session table, at the current time.
pub fn clear_expired_token(tokens: &mut TokenStore)
    ensures
        exists|t: i64| final(tokens).view() == swept_sessions(old(tokens).view(), t),
        forall|k: Seq<char>| #[trigger]
            final(tokens).view().contains_key(k) ==> old(tokens).view().contains_key(k)
                && final(tokens).view()[k] == old(tokens).view()[k],
{
    tokens.clear_expired(current_instant());
}

} // verus!
