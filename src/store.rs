//! The item, user and access-log tables, and the queries the service runs on them.
use vstd::prelude::*;
use crate::deps::time_ordered_uuid;
use crate::model::{
    is_spent, later, later_by, text_eq, ADMIN_USER_ID, PLACEHOLDER_FILE, AccessLog, Item, ItemType, OperationType, User, DROP_GRACE_SECS,
};

verus! {

/// `p` without its leading slashes.
pub open spec fn trimmed_path(p: Seq<char>) -> Seq<char>
    decreases p.len(),
{
    if p.len() > 0 && p[0] == '/' {
        trimmed_path(p.drop_first())
    } else {
        p
    }
}

proof fn lemma_trim_skips(p: Seq<char>, i: int)
    requires
        0 <= i <= p.len(),
        forall|j: int| 0 <= j < i ==> p[j] == '/',
    ensures
        trimmed_path(p) == trimmed_path(p.subrange(i, p.len() as int)),
    decreases i,
{
    if i > 0 {
        assert(p.drop_first() =~= p.subrange(1, p.len() as int));
        lemma_trim_skips(p.drop_first(), i - 1);
        assert(p.drop_first().subrange(i - 1, p.drop_first().len() as int) =~= p.subrange(
            i,
            p.len() as int,
        ));
    } else {
        assert(p.subrange(0, p.len() as int) =~= p);
    }
}

/// Drops the leading slashes of a request path.
pub fn trim_leading_slashes(p: &str) -> (r: &str)
    ensures
        r@ == trimmed_path(p@),
{
    let n = p.unicode_len();
    let mut i: usize = 0;
    while i < n && p.get_char(i) == '/'
        invariant
            i <= n == p@.len(),
            forall|j: int| 0 <= j < i ==> p@[j] == '/',
        decreases n - i,
    {
        i = i + 1;
    }
    proof {
        lemma_trim_skips(p@, i as int);
    }
    p.substring_char(i, n)
}

/// No two items share a short path, nor an id.
pub open spec fn items_unique(items: Seq<Item>) -> bool {
    forall|i: int, j: int|
        0 <= i < items.len() && 0 <= j < items.len() && i != j ==> items[i].short_path@
            != items[j].short_path@ && items[i].id@ != items[j].id@
}

/// The items are kept in the order of their creation instants.
pub open spec fn created_in_order(items: Seq<Item>) -> bool {
    forall|i: int, j: int|
        0 <= i < j < items.len() ==> #[trigger] items[i].created_at <= #[trigger] items[j].created_at
}

/// The creation instant of an item added at `now`: `now`, or the latest
/// creation instant so far if the clock has gone back since.
pub open spec fn creation_instant(items: Seq<Item>, now: i64) -> i64 {
    if items.len() > 0 && items.last().created_at > now {
        items.last().created_at
    } else {
        now
    }
}

/// No two log entries share an id.
pub open spec fn log_ids_unique(logs: Seq<AccessLog>) -> bool {
    forall|i: int, j: int|
        0 <= i < logs.len() && 0 <= j < logs.len() && i != j ==> logs[i].id@ != logs[j].id@
}

/// Whether `new` holds the items of `old` in place, each with the same path and id.
pub open spec fn same_keys(old: Seq<Item>, new: Seq<Item>) -> bool {
    &&& new.len() == old.len()
    &&& forall|k: int|
        #![trigger new[k]]
        0 <= k < old.len() ==> new[k].short_path@ == old[k].short_path@ && new[k].id@ == old[k].id@
            && new[k].created_at == old[k].created_at
}

proof fn lemma_same_keys(old: Seq<Item>, new: Seq<Item>)
    requires
        items_unique(old),
        created_in_order(old),
        same_keys(old, new),
    ensures
        items_unique(new),
        created_in_order(new),
{
    assert forall|i: int, j: int| 0 <= i < j < new.len() implies #[trigger] new[i].created_at
        <= #[trigger] new[j].created_at by {
        assert(new[i].created_at == old[i].created_at);
        assert(new[j].created_at == old[j].created_at);
    }
    assert forall|i: int, j: int|
        0 <= i < new.len() && 0 <= j < new.len() && i != j implies new[i].short_path@
        != new[j].short_path@ && new[i].id@ != new[j].id@ by {
        assert(new[i].short_path@ == old[i].short_path@ && new[i].id@ == old[i].id@);
        assert(new[j].short_path@ == old[j].short_path@ && new[j].id@ == old[j].id@);
    }
}

/// `n` plus signs.
pub open spec fn pluses(n: nat) -> Seq<char> {
    Seq::new(n, |i: int| '+')
}

/// The length of the longest of the texts.
pub open spec fn longest(s: Seq<Seq<char>>) -> nat
    decreases s.len(),
{
    if s.len() == 0 {
        0
    } else if longest(s.drop_last()) >= s.last().len() {
        longest(s.drop_last())
    } else {
        s.last().len()
    }
}

proof fn lemma_longest(s: Seq<Seq<char>>, i: int)
    requires
        0 <= i < s.len(),
    ensures
        s[i].len() <= longest(s),
    decreases s.len(),
{
    if i < s.len() - 1 {
        lemma_longest(s.drop_last(), i);
    }
}

/// No two users share an id, nor an email.
pub open spec fn users_unique(users: Seq<User>) -> bool {
    forall|i: int, j: int|
        0 <= i < users.len() && 0 <= j < users.len() && i != j ==> users[i].id@ != users[j].id@
            && users[i].email@ != users[j].email@
}

/// Whether some user has id `id`.
pub open spec fn has_user_id(users: Seq<User>, id: Seq<char>) -> bool {
    exists|k: int| 0 <= k < users.len() && users[k].id@ == id
}

/// Whether some user has email `email`.
pub open spec fn has_user_email(users: Seq<User>, email: Seq<char>) -> bool {
    exists|k: int| 0 <= k < users.len() && users[k].email@ == email
}

/// Whether some item is served at path `p`.
pub open spec fn has_path(items: Seq<Item>, p: Seq<char>) -> bool {
    exists|k: int| 0 <= k < items.len() && items[k].short_path@ == p
}

/// `it` after one more successful visit.
pub open spec fn visited(it: Item) -> Item {
    Item { visits: later(it.visits, 1), ..it }
}

/// `it` after its availability is set at `now`: an unavailable item is
/// dropped after the grace period; an available one has no drop time.
pub open spec fn with_availability(it: Item, available: bool, now: i64) -> Item {
    Item {
        available,
        should_drop_at: if available {
            None
        } else {
            Some(later(now, DROP_GRACE_SECS))
        },
        ..it
    }
}

/// Whether `l` records the given access.
pub open spec fn records(
    l: AccessLog,
    item_id: Seq<char>,
    path: Seq<char>,
    operation: OperationType,
    success: bool,
    ip_address: Seq<char>,
    initiator: Option<Seq<char>>,
    now: i64,
) -> bool {
    &&& l.item_id@ == item_id
    &&& l.path@ == path
    &&& l.operation == operation
    &&& l.success == success
    &&& l.ip_address@ == ip_address
    &&& l.accessed_at == now
    &&& match (l.initiator, initiator) {
        (Some(a), Some(b)) => a@ == b,
        (None, None) => true,
        _ => false,
    }
}

/// Whether the periodic sweep at `now` finds the item spent: the same
/// condition as a read's.
pub open spec fn sweep_due(it: Item, now: i64) -> bool {
    is_spent(it, now)
}

/// `it` after the sweep at `now` has marked it, where it is due.
pub open spec fn swept(it: Item, now: i64) -> Item {
    if it.available && sweep_due(it, now) {
        with_availability(it, false, now)
    } else {
        it
    }
}

/// Whether an unavailable item's grace period is over at `now`.
pub open spec fn droppable(it: Item, now: i64) -> bool {
    !it.available && (it.should_drop_at matches Some(t) && t <= now)
}

pub open spec fn sweep_mark(now: i64) -> spec_fn(Item) -> Item {
    |it: Item| swept(it, now)
}

pub open spec fn sweep_keeps(now: i64) -> spec_fn(Item) -> bool {
    |it: Item| !droppable(it, now)
}

pub open spec fn sweep_drops(now: i64) -> spec_fn(Item) -> bool {
    |it: Item| droppable(it, now)
}

/// Whether an item's id differs from `id`.
pub open spec fn other_id(id: Seq<char>) -> spec_fn(Item) -> bool {
    |it: Item| it.id@ != id
}

/// The items left by a sweep at `now`.
pub open spec fn kept_after_sweep(items: Seq<Item>, now: i64) -> Seq<Item> {
    items.map_values(sweep_mark(now)).filter(sweep_keeps(now))
}

/// Whether an item has a payload file of its own: a code or file item whose
/// payload is not the shared placeholder.
pub open spec fn owns_file(it: Item) -> bool {
    it.item_type != ItemType::Link && it.data@ != PLACEHOLDER_FILE@
}

pub fn has_own_file(it: &Item) -> (r: bool)
    ensures
        r == owns_file(*it),
{
    it.item_type != ItemType::Link && !text_eq(it.data.as_str(), PLACEHOLDER_FILE)
}

pub open spec fn sweep_drops_file(now: i64) -> spec_fn(Item) -> bool {
    |it: Item| droppable(it, now) && owns_file(it)
}

/// The items with files of their own that a sweep at `now` removes.
pub open spec fn dropped_by_sweep(items: Seq<Item>, now: i64) -> Seq<Item> {
    items.map_values(sweep_mark(now)).filter(sweep_drops_file(now))
}

/// Why a change to the tables was refused.
#[derive(Debug, Clone, Copy, PartialEq, Eq, Structural)]
pub enum StoreError {
    /// An item is already served at that path.
    PathTaken,
    /// A user with that id or email already exists.
    UserTaken,
    /// No row matched.
    NotFound,
}

/// Whether `new` is `old` with its payload reference replaced by `data`.
pub open spec fn data_replaced(new: Item, old: Item, data: Seq<char>) -> bool {
    new == Item { data: new.data, ..old } && new.data@ == data
}

fn sweep_due_at(it: &Item, now: i64) -> (r: bool)
    ensures
        r == sweep_due(*it, now),
{
    it.is_spent_at(now)
}

pub proof fn lemma_filter_step<A>(s: Seq<A>, pred: spec_fn(A) -> bool)
    requires
        s.len() > 0,
    ensures
        s.filter(pred) == if pred(s.last()) {
            s.drop_last().filter(pred).push(s.last())
        } else {
            s.drop_last().filter(pred)
        },
{
    reveal(Seq::filter);
}

/// Keeping some of the items keeps their paths unique.
proof fn lemma_filter_keeps_unique(items: Seq<Item>, pred: spec_fn(Item) -> bool)
    requires
        items_unique(items),
        created_in_order(items),
    ensures
        items_unique(items.filter(pred)),
        created_in_order(items.filter(pred)),
    decreases items.len(),
{
    reveal(Seq::filter);
    if items.len() > 0 {
        let rest = items.drop_last();
        assert(items_unique(rest));
        assert(created_in_order(rest));
        lemma_filter_keeps_unique(rest, pred);
        if pred(items.last()) {
            let f = rest.filter(pred);
            assert forall|i: int| 0 <= i < f.len() implies f[i].short_path@
                != items.last().short_path@ && f[i].id@ != items.last().id@ && f[i].created_at
                <= items.last().created_at by {
                assert(f.contains(f[i]));
                rest.lemma_filter_contains_rev(pred, f[i]);
                let j = choose|j: int| 0 <= j < rest.len() && rest[j] == f[i];
                assert(items[j] == rest[j]);
                assert(items[j].created_at <= items[items.len() - 1].created_at);
            }
            let g = f.push(items.last());
            assert forall|i: int, j: int| 0 <= i < j < g.len() implies #[trigger] g[i].created_at
                <= #[trigger] g[j].created_at by {
                if j == g.len() - 1 {
                    assert(g[i] == f[i]);
                } else {
                    assert(g[i] == f[i] && g[j] == f[j]);
                }
            }
        }
    }
}

/// The views of an optional text.
pub open spec fn opt_view(s: Option<&str>) -> Option<Seq<char>> {
    match s {
        Some(t) => Some(t@),
        None => None,
    }
}

/// Whether an optional stored text holds the given optional view.
pub open spec fn opt_holds(s: Option<String>, v: Option<Seq<char>>) -> bool {
    match (s, v) {
        (Some(a), Some(b)) => a@ == b,
        (None, None) => true,
        _ => false,
    }
}

/// Whether `it` is an item just created with the given fields at `now`.
pub open spec fn fresh_item(
    it: Item,
    short_path: Seq<char>,
    item_type: ItemType,
    data: Seq<char>,
    expires_at: Option<i64>,
    max_visits: Option<i64>,
    password_hash: Option<Seq<char>>,
    extra_data: Option<Seq<char>>,
    creator: Option<Seq<char>>,
    now: i64,
) -> bool {
    &&& it.id@.len() >= 36
    &&& it.short_path@ == short_path
    &&& it.item_type == item_type
    &&& it.data@ == data
    &&& it.expires_at == expires_at
    &&& it.max_visits == max_visits
    &&& it.visits == 0
    &&& opt_holds(it.password_hash, password_hash)
    &&& it.created_at == now
    &&& opt_holds(it.extra_data, extra_data)
    &&& opt_holds(it.creator, creator)
    &&& it.available
    &&& it.should_drop_at is None
    &&& !it.img
}

fn owned(s: Option<&str>) -> (r: Option<String>)
    ensures
        opt_holds(r, opt_view(s)),
{
    match s {
        Some(t) => Some(t.to_owned()),
        None => None,
    }
}

/// Whether a log entry is about the item with id `id`.
pub open spec fn logs_of(id: Seq<char>) -> spec_fn(AccessLog) -> bool {
    |l: AccessLog| l.item_id@ == id
}

fn copy_log(l: &AccessLog) -> (r: AccessLog)
    ensures
        r == *l,
{
    AccessLog {
        id: l.id.clone(),
        item_id: l.item_id.clone(),
        accessed_at: l.accessed_at,
        path: l.path.clone(),
        operation: l.operation,
        success: l.success,
        ip_address: l.ip_address.clone(),
        initiator: l.initiator.clone(),
    }
}

/// The service's tables.
pub struct ItemStore {
    pub items: Vec<Item>,
    pub users: Vec<User>,
    pub logs: Vec<AccessLog>,
}

impl ItemStore {
    pub open spec fn wf(&self) -> bool {
        items_unique(self.items@) && created_in_order(self.items@) && users_unique(self.users@)
            && log_ids_unique(self.logs@)
    }

    pub fn new() -> (r: ItemStore)
        ensures
            r.wf(),
            r.items@.len() == 0,
            r.users@.len() == 0,
            r.logs@.len() == 0,
    {
        ItemStore { items: Vec::new(), users: Vec::new(), logs: Vec::new() }
    }

    /// The position of the item served at `path`.
    pub fn find_item(&self, path: &str) -> (r: Option<usize>)
        ensures
            r matches Some(k) ==> k < self.items@.len() && self.items@[k as int].short_path@
                == path@,
            r is None ==> !has_path(self.items@, path@),
    {
        let mut k: usize = 0;
        while k < self.items.len()
            invariant
                k <= self.items@.len(),
                forall|j: int| 0 <= j < k ==> self.items@[j].short_path@ != path@,
            decreases self.items@.len() - k,
        {
            if text_eq(self.items[k].short_path.as_str(), path) {
                return Some(k);
            }
            k = k + 1;
        }
        None
    }

    pub fn get_item(&self, short_path: &str) -> (r: Option<&Item>)
        requires
            self.wf(),
        ensures
            r matches Some(it) ==> exists|k: int|
                0 <= k < self.items@.len() && self.items@[k] == *it && it.short_path@
                    == short_path@,
            r is None ==> !has_path(self.items@, short_path@),
    {
        match self.find_item(short_path) {
            Some(k) => Some(&self.items[k]),
            None => None,
        }
    }

    pub fn item_exists(&self, path: &str) -> (r: bool)
        ensures
            r == has_path(self.items@, path@),
    {
        self.find_item(path).is_some()
    }

    /// Sets the availability of every item with id `id`.
    pub fn update_item_available(&mut self, id: &str, available: bool, now: i64)
        requires
            old(self).wf(),
        ensures
            final(self).wf(),
            final(self).users@ == old(self).users@,
            final(self).logs@ == old(self).logs@,
            final(self).items@.len() == old(self).items@.len(),
            forall|k: int|
                0 <= k < old(self).items@.len() ==> #[trigger] final(self).items@[k] == if old(self).items@[k].id@ == id@ {
                    with_availability(old(self).items@[k], available, now)
                } else {
                    old(self).items@[k]
                },
    {
        let drop_at: Option<i64> = if available {
            None
        } else {
            Some(later_by(now, DROP_GRACE_SECS))
        };
        let n = self.items.len();
        let mut k: usize = 0;
        while k < n
            invariant
                n == old(self).items@.len() == self.items@.len(),
                k <= n,
                self.users@ == old(self).users@,
                self.logs@ == old(self).logs@,
                drop_at == (if available { None } else { Some(later(now, DROP_GRACE_SECS)) }),
                forall|j: int|
                    0 <= j < n ==> #[trigger] self.items@[j] == if j < k && old(self).items@[j].id@ == id@ {
                        with_availability(old(self).items@[j], available, now)
                    } else {
                        old(self).items@[j]
                    },
            decreases n - k,
        {
            if text_eq(self.items[k].id.as_str(), id) {
                self.items[k].available = available;
                self.items[k].should_drop_at = drop_at;
            }
            k = k + 1;
        }
        proof {
            lemma_same_keys(old(self).items@, self.items@);
        }
    }

    /// Records an access; a successful one also counts a visit of the item
    /// served at `path` (leading slashes ignored).
    pub fn log_access(
        &mut self,
        item_id: &str,
        path: &str,
        operation: OperationType,
        success: bool,
        ip_address: &str,
        initiator: Option<&str>,
        now: i64,
    )
        requires
            old(self).wf(),
        ensures
            final(self).logs@.last().id@.len() >= 36,
            forall|k: int|
                0 <= k < old(self).logs@.len() ==> old(self).logs@[k].id@ != final(self).logs@.last().id@,
            final(self).wf(),
            final(self).users@ == old(self).users@,
            final(self).logs@.len() == old(self).logs@.len() + 1,
            final(self).logs@.drop_last() == old(self).logs@,
            records(
                final(self).logs@.last(),
                item_id@,
                path@,
                operation,
                success,
                ip_address@,
                match initiator {
                    Some(s) => Some(s@),
                    None => None,
                },
                now,
            ),
            final(self).items@.len() == old(self).items@.len(),
            forall|k: int|
                0 <= k < old(self).items@.len() ==> #[trigger] final(self).items@[k] == if success
                    && old(self).items@[k].short_path@ == trimmed_path(path@) {
                    visited(old(self).items@[k])
                } else {
                    old(self).items@[k]
                },
    {
        let init: Option<String> = match initiator {
            Some(s) => Some(s.to_owned()),
            None => None,
        };
        let log_id = self.fresh_log_id(time_ordered_uuid().as_str());
        let entry = AccessLog {
            id: log_id,
            item_id: item_id.to_owned(),
            accessed_at: now,
            path: path.to_owned(),
            operation,
            success,
            ip_address: ip_address.to_owned(),
            initiator: init,
        };
        self.logs.push(entry);
        proof {
            assert(self.logs@.drop_last() =~= old(self).logs@);
            assert forall|i: int, j: int|
                0 <= i < self.logs@.len() && 0 <= j < self.logs@.len() && i != j implies
                self.logs@[i].id@ != self.logs@[j].id@ by {
                if i < old(self).logs@.len() && j < old(self).logs@.len() {
                    assert(self.logs@[i] == old(self).logs@[i]);
                    assert(self.logs@[j] == old(self).logs@[j]);
                }
            }
        }
        if success {
            let trimmed = trim_leading_slashes(path);
            match self.find_item(trimmed) {
                Some(k) => {
                    let v = self.items[k].visits;
                    self.items[k].visits = later_by(v, 1);
                },
                None => {},
            }
        }
    }

    /// Adds an item at `short_path`, unless one is served there already.
    /// Returns the new item's position.
    pub fn create_item(
        &mut self,
        short_path: &str,
        item_type: ItemType,
        data: &str,
        expires_at: Option<i64>,
        max_visits: Option<i64>,
        password_hash: Option<&str>,
        extra_data: Option<&str>,
        creator: Option<&str>,
        now: i64,
    ) -> (r: Result<usize, StoreError>)
        requires
            old(self).wf(),
        ensures
            !has_path(old(self).items@, short_path@) ==> forall|k: int|
                0 <= k < old(self).items@.len() ==> old(self).items@[k].id@ != final(self).items@.last().id@,
            final(self).wf(),
            final(self).users@ == old(self).users@,
            final(self).logs@ == old(self).logs@,
            has_path(old(self).items@, short_path@) ==> r == Err::<usize, StoreError>(
                StoreError::PathTaken,
            ) && final(self).items@ == old(self).items@,
            !has_path(old(self).items@, short_path@) ==> (r matches Ok(k) && k == old(self).items@.len()) && final(self).items@.len()
                == old(self).items@.len() + 1 && final(self).items@.drop_last() == old(self).items@ && fresh_item(
                final(self).items@.last(),
                short_path@,
                item_type,
                data@,
                expires_at,
                max_visits,
                opt_view(password_hash),
                opt_view(extra_data),
                opt_view(creator),
                creation_instant(old(self).items@, now),
            ),
    {
        if self.item_exists(short_path) {
            return Err(StoreError::PathTaken);
        }
        let item_id = self.fresh_item_id(time_ordered_uuid().as_str());
        let n = self.items.len();
        let at: i64 = if n > 0 && self.items[n - 1].created_at > now {
            self.items[n - 1].created_at
        } else {
            now
        };
        let item = Item {
            id: item_id,
            short_path: short_path.to_owned(),
            item_type,
            data: data.to_owned(),
            expires_at,
            max_visits,
            visits: 0,
            password_hash: owned(password_hash),
            created_at: at,
            extra_data: owned(extra_data),
            creator: owned(creator),
            available: true,
            should_drop_at: None,
            img: false,
        };
        self.items.push(item);
        proof {
            assert(self.items@.drop_last() =~= old(self).items@);
            assert forall|i: int, j: int| 0 <= i < j < self.items@.len() implies #[trigger] self.items@[
                i].created_at <= #[trigger] self.items@[j].created_at by {
                if j == n as int {
                    assert(self.items@[i] == old(self).items@[i]);
                    if n > 0 {
                        assert(old(self).items@[i].created_at <= old(self).items@[n - 1].created_at);
                    }
                } else {
                    assert(self.items@[i] == old(self).items@[i]);
                    assert(self.items@[j] == old(self).items@[j]);
                }
            }
            assert forall|i: int, j: int|
                0 <= i < self.items@.len() && 0 <= j < self.items@.len() && i != j implies
                self.items@[i].short_path@ != self.items@[j].short_path@ by {
                if i == n as int {
                    assert(self.items@[j] == old(self).items@[j]);
                } else if j == n as int {
                    assert(self.items@[i] == old(self).items@[i]);
                }
            }
        }
        Ok(n)
    }

    /// Sets the payload reference of every item with id `id`.
    pub fn update_item_data(&mut self, id: &str, data: &str)
        requires
            old(self).wf(),
        ensures
            final(self).wf(),
            final(self).users@ == old(self).users@,
            final(self).logs@ == old(self).logs@,
            final(self).items@.len() == old(self).items@.len(),
            forall|k: int|
                0 <= k < old(self).items@.len() ==> if old(self).items@[k].id@ == id@ {
                    data_replaced(#[trigger] final(self).items@[k], old(self).items@[k], data@)
                } else {
                    final(self).items@[k] == old(self).items@[k]
                },
    {
        let n = self.items.len();
        let mut k: usize = 0;
        while k < n
            invariant
                n == old(self).items@.len() == self.items@.len(),
                k <= n,
                self.users@ == old(self).users@,
                self.logs@ == old(self).logs@,
                forall|j: int|
                    0 <= j < n ==> if j < k && old(self).items@[j].id@ == id@ {
                        data_replaced(#[trigger] self.items@[j], old(self).items@[j], data@)
                    } else {
                        self.items@[j] == old(self).items@[j]
                    },
            decreases n - k,
        {
            if text_eq(self.items[k].id.as_str(), id) {
                self.items[k].data = data.to_owned();
            }
            k = k + 1;
        }
        proof {
            lemma_same_keys(old(self).items@, self.items@);
        }
    }

    /// Records whether the payload of every item with id `id` is an image.
    pub fn update_item_img(&mut self, id: &str, img: bool)
        requires
            old(self).wf(),
        ensures
            final(self).wf(),
            final(self).users@ == old(self).users@,
            final(self).logs@ == old(self).logs@,
            final(self).items@.len() == old(self).items@.len(),
            forall|k: int|
                0 <= k < old(self).items@.len() ==> #[trigger] final(self).items@[k] == if old(self).items@[k].id@ == id@ {
                    Item { img, ..old(self).items@[k] }
                } else {
                    old(self).items@[k]
                },
    {
        let n = self.items.len();
        let mut k: usize = 0;
        while k < n
            invariant
                n == old(self).items@.len() == self.items@.len(),
                k <= n,
                self.users@ == old(self).users@,
                self.logs@ == old(self).logs@,
                forall|j: int|
                    0 <= j < n ==> #[trigger] self.items@[j] == if j < k && old(self).items@[j].id@ == id@ {
                        Item { img, ..old(self).items@[j] }
                    } else {
                        old(self).items@[j]
                    },
            decreases n - k,
        {
            if text_eq(self.items[k].id.as_str(), id) {
                self.items[k].img = img;
            }
            k = k + 1;
        }
        proof {
            lemma_same_keys(old(self).items@, self.items@);
        }
    }

    /// Deletes every item with id `id`.
    pub fn remove_item(&mut self, id: &str)
        requires
            old(self).wf(),
        ensures
            final(self).wf(),
            final(self).users@ == old(self).users@,
            final(self).logs@ == old(self).logs@,
            final(self).items@ == old(self).items@.filter(other_id(id@)),
    {
        let ghost pred = other_id(id@);
        let mut old_items: Vec<Item> = Vec::new();
        std::mem::swap(&mut old_items, &mut self.items);
        let ghost src = old_items@;
        let mut kept: Vec<Item> = Vec::new();
        for it in iter: old_items.into_iter()
            invariant
                iter.seq() == src,
                src == old(self).items@,
                self.users@ == old(self).users@,
                self.logs@ == old(self).logs@,
                pred == other_id(id@),
                kept@ == src.take(iter.index() as int).filter(pred),
        {
            proof {
                let i = iter.index() as int;
                let s1 = src.take(i + 1);
                assert(s1.drop_last() =~= src.take(i));
                assert(s1.last() == it);
                lemma_filter_step(s1, pred);
            }
            if !text_eq(it.id.as_str(), id) {
                kept.push(it);
            }
        }
        proof {
            assert(src.take(src.len() as int) =~= src);
            lemma_filter_keeps_unique(src, pred);
        }
        self.items = kept;
    }

    /// The periodic sweep at `now`: marks the available items that are due as
    /// unavailable, then deletes the items whose grace period is over.
    /// Returns the payload files of the deleted items that had files of their
    /// own: no link targets, and never the shared placeholder.
    pub fn refresh_db(&mut self, now: i64) -> (r: Vec<String>)
        requires
            old(self).wf(),
        ensures
            final(self).wf(),
            final(self).users@ == old(self).users@,
            final(self).logs@ == old(self).logs@,
            final(self).items@ == kept_after_sweep(old(self).items@, now),
            r@.len() == dropped_by_sweep(old(self).items@, now).len(),
            forall|i: int|
                0 <= i < r@.len() ==> #[trigger] r@[i]@ == dropped_by_sweep(
                    old(self).items@,
                    now,
                )[i].data@,
    {
        let ghost keep = sweep_keeps(now);
        let ghost drop = sweep_drops_file(now);
        let ghost mark = sweep_mark(now);
        let drop_at = later_by(now, DROP_GRACE_SECS);
        let mut old_items: Vec<Item> = Vec::new();
        std::mem::swap(&mut old_items, &mut self.items);
        let ghost src = old_items@;
        let mut kept: Vec<Item> = Vec::new();
        let mut dropped: Vec<String> = Vec::new();
        let ghost mut dropped_items: Seq<Item> = Seq::empty();
        for it in iter: old_items.into_iter()
            invariant
                iter.seq() == src,
                src == old(self).items@,
                self.users@ == old(self).users@,
                self.logs@ == old(self).logs@,
                drop_at == later(now, DROP_GRACE_SECS),
                keep == sweep_keeps(now),
                drop == sweep_drops_file(now),
                mark == sweep_mark(now),
                kept@ == src.take(iter.index() as int).map_values(mark).filter(keep),
                dropped_items == src.take(iter.index() as int).map_values(mark).filter(drop),
                dropped@.len() == dropped_items.len(),
                forall|i: int| 0 <= i < dropped@.len() ==> #[trigger] dropped@[i]@ == dropped_items[i].data@,
        {
            proof {
                let i = iter.index() as int;
                let m1 = src.take(i + 1).map_values(mark);
                assert(m1.drop_last() =~= src.take(i).map_values(mark));
                assert(src.take(i + 1)[i] == it);
                assert(m1.last() == swept(it, now));
                lemma_filter_step(m1, keep);
                lemma_filter_step(m1, drop);
            }
            let mut cur = it;
            if cur.available && sweep_due_at(&cur, now) {
                cur.available = false;
                cur.should_drop_at = Some(drop_at);
            }
            let gone = !cur.available && match cur.should_drop_at {
                Some(t) => t <= now,
                None => false,
            };
            if gone {
                if has_own_file(&cur) {
                    proof {
                        dropped_items = dropped_items.push(cur);
                    }
                    dropped.push(cur.data);
                }
            } else {
                kept.push(cur);
            }
        }
        proof {
            assert(src.take(src.len() as int) =~= src);
            lemma_filter_keeps_unique(src.map_values(mark), keep);
        }
        self.items = kept;
        dropped
    }

    /// The position of the user with id `id`.
    pub fn find_user(&self, id: &str) -> (r: Option<usize>)
        ensures
            r matches Some(k) ==> k < self.users@.len() && self.users@[k as int].id@ == id@,
            r is None ==> !has_user_id(self.users@, id@),
    {
        let mut k: usize = 0;
        while k < self.users.len()
            invariant
                k <= self.users@.len(),
                forall|j: int| 0 <= j < k ==> self.users@[j].id@ != id@,
            decreases self.users@.len() - k,
        {
            if text_eq(self.users[k].id.as_str(), id) {
                return Some(k);
            }
            k = k + 1;
        }
        None
    }

    /// The position of the user with email `email`.
    pub fn find_user_by_email(&self, email: &str) -> (r: Option<usize>)
        ensures
            r matches Some(k) ==> k < self.users@.len() && self.users@[k as int].email@
                == email@,
            r is None ==> !has_user_email(self.users@, email@),
    {
        let mut k: usize = 0;
        while k < self.users.len()
            invariant
                k <= self.users@.len(),
                forall|j: int| 0 <= j < k ==> self.users@[j].email@ != email@,
            decreases self.users@.len() - k,
        {
            if text_eq(self.users[k].email.as_str(), email) {
                return Some(k);
            }
            k = k + 1;
        }
        None
    }

    pub fn get_user_by_id(&self, id: &str) -> (r: Option<&User>)
        ensures
            r matches Some(u) ==> u.id@ == id@ && self.users@.contains(*u),
            r is None ==> !has_user_id(self.users@, id@),
    {
        match self.find_user(id) {
            Some(k) => Some(&self.users[k]),
            None => None,
        }
    }

    pub fn get_user_by_email(&self, email: &str) -> (r: Option<&User>)
        ensures
            r matches Some(u) ==> u.email@ == email@ && self.users@.contains(*u),
            r is None ==> !has_user_email(self.users@, email@),
    {
        match self.find_user_by_email(email) {
            Some(k) => Some(&self.users[k]),
            None => None,
        }
    }

    pub fn get_all_users(&self) -> (r: &Vec<User>)
        ensures
            r@ == self.users@,
    {
        &self.users
    }

    /// Whether the built-in administrator account exists.
    pub fn admin_user_exists(&self) -> (r: bool)
        ensures
            r == has_user_id(self.users@, ADMIN_USER_ID@),
    {
        self.find_user(ADMIN_USER_ID).is_some()
    }

    /// Adds a user, unless one with the same id or email exists.
    pub fn create_user(
        &mut self,
        id: &str,
        name: &str,
        email: &str,
        password: &str,
        descriptor: i64,
        avatar: Option<&str>,
        now: i64,
    ) -> (r: Result<usize, StoreError>)
        requires
            old(self).wf(),
        ensures
            final(self).wf(),
            final(self).items@ == old(self).items@,
            final(self).logs@ == old(self).logs@,
            has_user_id(old(self).users@, id@) || has_user_email(old(self).users@, email@) ==> r
                == Err::<usize, StoreError>(StoreError::UserTaken) && final(self).users@ == old(self).users@,
            !(has_user_id(old(self).users@, id@) || has_user_email(old(self).users@, email@))
                ==> (r matches Ok(k) && k == old(self).users@.len()) && final(self).users@.len()
                == old(self).users@.len() + 1 && final(self).users@.drop_last() == old(self).users@ && ({
                let u = final(self).users@.last();
                &&& u.id@ == id@
                &&& u.name@ == name@
                &&& u.email@ == email@
                &&& u.password@ == password@
                &&& u.descriptor == descriptor
                &&& u.created_at == now
                &&& opt_holds(u.avatar, opt_view(avatar))
            }),
    {
        if self.find_user(id).is_some() || self.find_user_by_email(email).is_some() {
            return Err(StoreError::UserTaken);
        }
        let user = User {
            id: id.to_owned(),
            name: name.to_owned(),
            email: email.to_owned(),
            password: password.to_owned(),
            avatar: owned(avatar),
            created_at: now,
            descriptor,
        };
        let n = self.users.len();
        self.users.push(user);
        proof {
            assert(self.users@.drop_last() =~= old(self).users@);
            assert forall|i: int, j: int|
                0 <= i < self.users@.len() && 0 <= j < self.users@.len() && i != j implies
                self.users@[i].id@ != self.users@[j].id@ && self.users@[i].email@
                    != self.users@[j].email@ by {
                if i == n as int {
                    assert(self.users@[j] == old(self).users@[j]);
                } else if j == n as int {
                    assert(self.users@[i] == old(self).users@[i]);
                }
            }
        }
        Ok(n)
    }

    /// Replaces the password digest of the user with id `id`.
    pub fn change_user_password(&mut self, id: &str, password: &str) -> (r: Result<
        (),
        StoreError,
    >)
        requires
            old(self).wf(),
        ensures
            final(self).wf(),
            final(self).items@ == old(self).items@,
            final(self).logs@ == old(self).logs@,
            final(self).users@.len() == old(self).users@.len(),
            r is Err <==> !has_user_id(old(self).users@, id@),
            r is Err ==> r == Err::<(), StoreError>(StoreError::NotFound) && final(self).users@
                == old(self).users@,
            forall|k: int|
                0 <= k < old(self).users@.len() ==> if old(self).users@[k].id@ == id@ {
                    final(self).users@[k] == User {
                        password: final(self).users@[k].password,
                        ..old(self).users@[k]
                    } && final(self).users@[k].password@ == password@
                } else {
                    final(self).users@[k] == old(self).users@[k]
                },
    {
        match self.find_user(id) {
            Some(k) => {
                self.users[k].password = password.to_owned();
                proof {
                    assert forall|i: int, j: int|
                        0 <= i < self.users@.len() && 0 <= j < self.users@.len() && i != j implies
                        self.users@[i].id@ != self.users@[j].id@ && self.users@[i].email@
                            != self.users@[j].email@ by {
                        assert(old(self).users@[i].id@ != old(self).users@[j].id@);
                    }
                }
                Ok(())
            },
            None => Err(StoreError::NotFound),
        }
    }

    /// Deletes the user with id `id`, if there is one.
    pub fn remove_user(&mut self, id: &str)
        requires
            old(self).wf(),
        ensures
            final(self).wf(),
            final(self).items@ == old(self).items@,
            final(self).logs@ == old(self).logs@,
            !has_user_id(old(self).users@, id@) ==> final(self).users@ == old(self).users@,
            forall|k: int|
                0 <= k < old(self).users@.len() && old(self).users@[k].id@ == id@ ==> final(self).users@ == old(self).users@.remove(k),
    {
        match self.find_user(id) {
            Some(k) => {
                self.users.remove(k);
                proof {
                    assert forall|i: int, j: int|
                        0 <= i < self.users@.len() && 0 <= j < self.users@.len() && i != j implies
                        self.users@[i].id@ != self.users@[j].id@ && self.users@[i].email@
                            != self.users@[j].email@ by {
                        let oi = if i < k { i } else { i + 1 };
                        let oj = if j < k { j } else { j + 1 };
                        assert(self.users@[i] == old(self).users@[oi]);
                        assert(self.users@[j] == old(self).users@[oj]);
                    }
                }
            },
            None => {},
        }
    }

    /// The access log of the item at `short_path`, newest first.
    pub fn get_item_access_logs(&self, short_path: &str) -> (r: Vec<AccessLog>)
        requires
            self.wf(),
        ensures
            !has_path(self.items@, short_path@) ==> r@.len() == 0,
            forall|k: int|
                0 <= k < self.items@.len() && #[trigger] self.items@[k].short_path@ == short_path@
                    ==> r@ == self.logs@.reverse().filter(logs_of(self.items@[k].id@)),
    {
        let k = match self.find_item(short_path) {
            Some(k) => k,
            None => return Vec::new(),
        };
        proof {
            assert forall|j: int|
                0 <= j < self.items@.len() && #[trigger] self.items@[j].short_path@
                    == short_path@ implies j == k by {}
        }
        let id = self.items[k].id.as_str();
        let ghost pred = logs_of(id@);
        let n = self.logs.len();
        let mut out: Vec<AccessLog> = Vec::new();
        let mut i: usize = n;
        while i > 0
            invariant
                i <= n == self.logs@.len(),
                pred == logs_of(id@),
                out@ == self.logs@.subrange(i as int, n as int).reverse().filter(pred),
            decreases i,
        {
            i = i - 1;
            let ghost seen = self.logs@.subrange(i as int, n as int).reverse();
            proof {
                assert(seen.drop_last() =~= self.logs@.subrange(i + 1, n as int).reverse());
                assert(seen.last() == self.logs@[i as int]);
                lemma_filter_step(seen, pred);
            }
            if text_eq(self.logs[i].item_id.as_str(), id) {
                out.push(copy_log(&self.logs[i]));
            }
        }
        proof {
            assert(self.logs@.subrange(0, n as int) =~= self.logs@);
        }
        out
    }

    /// `id`, lengthened with `+` until no user has it.
    pub fn fresh_user_id(&self, id: &str) -> (r: String)
        ensures
            !has_user_id(self.users@, r@),
            r@.len() >= id@.len(),
            r@.subrange(0, id@.len() as int) == id@,
    {
        let ghost ids = self.users@.map_values(|u: User| u.id@);
        let ghost start = id@;
        let mut cur = id.to_owned();
        loop
            invariant
                ids == self.users@.map_values(|u: User| u.id@),
                start == id@,
                cur@.len() >= start.len(),
                cur@.subrange(0, start.len() as int) == start,
            decreases longest(ids) + 1 - cur@.len(),
        {
            let k = match self.find_user(cur.as_str()) {
                None => return cur,
                Some(k) => k,
            };
            proof {
                assert(ids[k as int] == self.users@[k as int].id@);
                lemma_longest(ids, k as int);
            }
            let ghost before = cur@;
            proof {
                reveal_strlit("+");
            }
            cur.append("+");
            proof {
                assert(cur@.subrange(0, start.len() as int) =~= before.subrange(0, start.len() as int));
            }
        }
    }

    /// `id`, lengthened with `+` until no item has it.
    pub fn fresh_item_id(&self, id: &str) -> (r: String)
        ensures
            forall|j: int| 0 <= j < self.items@.len() ==> self.items@[j].id@ != r@,
            r@.len() >= id@.len(),
            r@.subrange(0, id@.len() as int) == id@,
    {
        let ghost ids = self.items@.map_values(|it: Item| it.id@);
        let ghost start = id@;
        let mut cur = id.to_owned();
        loop
            invariant
                ids == self.items@.map_values(|it: Item| it.id@),
                start == id@,
                cur@.len() >= start.len(),
                cur@.subrange(0, start.len() as int) == start,
            decreases longest(ids) + 1 - cur@.len(),
        {
            let mut taken = false;
            let mut k: usize = 0;
            while k < self.items.len()
                invariant
                    k <= self.items@.len(),
                    taken ==> exists|j: int| 0 <= j < self.items@.len() && self.items@[j].id@ == cur@,
                    !taken ==> forall|j: int| 0 <= j < k ==> self.items@[j].id@ != cur@,
                decreases self.items@.len() - k,
            {
                if text_eq(self.items[k].id.as_str(), cur.as_str()) {
                    taken = true;
                }
                k = k + 1;
            }
            if !taken {
                return cur;
            }
            proof {
                let j = choose|j: int| 0 <= j < self.items@.len() && self.items@[j].id@ == cur@;
                assert(ids[j] == self.items@[j].id@);
                lemma_longest(ids, j);
            }
            let ghost before = cur@;
            proof {
                reveal_strlit("+");
            }
            cur.append("+");
            proof {
                assert(cur@.subrange(0, start.len() as int) =~= before.subrange(0, start.len() as int));
            }
        }
    }

    /// `id`, lengthened with `+` until no log entry has it.
    pub fn fresh_log_id(&self, id: &str) -> (r: String)
        ensures
            forall|j: int| 0 <= j < self.logs@.len() ==> self.logs@[j].id@ != r@,
            r@.len() >= id@.len(),
            r@.subrange(0, id@.len() as int) == id@,
    {
        let ghost ids = self.logs@.map_values(|l: AccessLog| l.id@);
        let ghost start = id@;
        let mut cur = id.to_owned();
        loop
            invariant
                ids == self.logs@.map_values(|l: AccessLog| l.id@),
                start == id@,
                cur@.len() >= start.len(),
                cur@.subrange(0, start.len() as int) == start,
            decreases longest(ids) + 1 - cur@.len(),
        {
            let mut taken = false;
            let mut k: usize = 0;
            while k < self.logs.len()
                invariant
                    k <= self.logs@.len(),
                    taken ==> exists|j: int| 0 <= j < self.logs@.len() && self.logs@[j].id@ == cur@,
                    !taken ==> forall|j: int| 0 <= j < k ==> self.logs@[j].id@ != cur@,
                decreases self.logs@.len() - k,
            {
                if text_eq(self.logs[k].id.as_str(), cur.as_str()) {
                    taken = true;
                }
                k = k + 1;
            }
            if !taken {
                return cur;
            }
            proof {
                let j = choose|j: int| 0 <= j < self.logs@.len() && self.logs@[j].id@ == cur@;
                assert(ids[j] == self.logs@[j].id@);
                lemma_longest(ids, j);
            }
            let ghost before = cur@;
            proof {
                reveal_strlit("+");
            }
            cur.append("+");
            proof {
                assert(cur@.subrange(0, start.len() as int) =~= before.subrange(0, start.len() as int));
            }
        }
    }

    /// `stem` + `suffix`, with `stem` lengthened by `+` until no item's
    /// payload reference is that name.
    pub fn fresh_payload_name(&self, stem: String, suffix: &str) -> (r: String)
        ensures
            forall|j: int| 0 <= j < self.items@.len() ==> self.items@[j].data@ != r@,
            exists|n: nat| r@ == stem@ + #[trigger] pluses(n) + suffix@,
    {
        proof {
            reveal_strlit("+");
        }
        let ghost names = self.items@.map_values(|it: Item| it.data@);
        let mut stem2 = stem.clone();
        let ghost mut count: nat = 0;
        loop
            invariant
                names == self.items@.map_values(|it: Item| it.data@),
                stem2@ == stem@ + pluses(count),
            decreases longest(names) + 1 - stem2@.len(),
        {
            let mut name = stem2.clone();
            name.append(suffix);
            let mut taken = false;
            let mut k: usize = 0;
            while k < self.items.len()
                invariant
                    k <= self.items@.len(),
                    taken ==> exists|j: int| 0 <= j < self.items@.len() && self.items@[j].data@ == name@,
                    !taken ==> forall|j: int| 0 <= j < k ==> self.items@[j].data@ != name@,
                decreases self.items@.len() - k,
            {
                if text_eq(self.items[k].data.as_str(), name.as_str()) {
                    taken = true;
                }
                k = k + 1;
            }
            if !taken {
                proof {
                    assert(name@ == stem@ + pluses(count) + suffix@);
                }
                return name;
            }
            proof {
                let j = choose|j: int| 0 <= j < self.items@.len() && self.items@[j].data@ == name@;
                assert(names[j] == self.items@[j].data@);
                lemma_longest(names, j);
            }
            proof {
                reveal_strlit("+");
            }
            let ghost before = stem2@;
            stem2.append("+");
            proof {
                assert(stem2@ =~= before + "+"@);
                assert(stem2@ =~= stem@ + pluses(count + 1));
                count = count + 1;
            }
        }
    }

    /// Whether the tables keep their invariant; for tables read back from
    /// elsewhere.
    pub fn check_wf(&self) -> (r: bool)
        ensures
            r == self.wf(),
    {
        let n = self.items.len();
        let mut i: usize = 0;
        while i < n
            invariant
                n == self.items@.len(),
                i <= n,
                forall|a: int, b: int|
                    0 <= a < i && 0 <= b < n && a != b ==> self.items@[a].short_path@
                        != self.items@[b].short_path@ && self.items@[a].id@ != self.items@[b].id@,
                forall|a: int, b: int|
                    0 <= a < i && a < b < n ==> #[trigger] self.items@[a].created_at
                        <= #[trigger] self.items@[b].created_at,
            decreases n - i,
        {
            let mut j: usize = 0;
            while j < n
                invariant
                    n == self.items@.len(),
                    i < n,
                    j <= n,
                    forall|b: int|
                        0 <= b < j && b != i ==> self.items@[i as int].short_path@
                            != self.items@[b].short_path@ && self.items@[i as int].id@
                            != self.items@[b].id@,
                    forall|b: int|
                        i < b < j ==> self.items@[i as int].created_at <= #[trigger] self.items@[b].created_at,
                decreases n - j,
            {
                if j != i && (text_eq(self.items[i].short_path.as_str(), self.items[j].short_path.as_str())
                    || text_eq(self.items[i].id.as_str(), self.items[j].id.as_str())) {
                    return false;
                }
                if j > i && self.items[i].created_at > self.items[j].created_at {
                    return false;
                }
                j = j + 1;
            }
            i = i + 1;
        }
        let m = self.users.len();
        let mut i: usize = 0;
        while i < m
            invariant
                m == self.users@.len(),
                i <= m,
                items_unique(self.items@),
                created_in_order(self.items@),
                forall|a: int, b: int|
                    0 <= a < i && 0 <= b < m && a != b ==> self.users@[a].id@ != self.users@[b].id@
                        && self.users@[a].email@ != self.users@[b].email@,
            decreases m - i,
        {
            let mut j: usize = 0;
            while j < m
                invariant
                    m == self.users@.len(),
                    i < m,
                    j <= m,
                    forall|b: int|
                        0 <= b < j && b != i ==> self.users@[i as int].id@ != self.users@[b].id@
                            && self.users@[i as int].email@ != self.users@[b].email@,
                decreases m - j,
            {
                if j != i && (text_eq(self.users[i].id.as_str(), self.users[j].id.as_str())
                    || text_eq(self.users[i].email.as_str(), self.users[j].email.as_str())) {
                    return false;
                }
                j = j + 1;
            }
            i = i + 1;
        }
        let l = self.logs.len();
        let mut i: usize = 0;
        while i < l
            invariant
                l == self.logs@.len(),
                i <= l,
                items_unique(self.items@),
                created_in_order(self.items@),
                users_unique(self.users@),
                forall|a: int, b: int|
                    0 <= a < i && 0 <= b < l && a != b ==> self.logs@[a].id@ != self.logs@[b].id@,
            decreases l - i,
        {
            let mut j: usize = 0;
            while j < l
                invariant
                    l == self.logs@.len(),
                    i < l,
                    j <= l,
                    forall|b: int| 0 <= b < j && b != i ==> self.logs@[i as int].id@ != self.logs@[b].id@,
                decreases l - j,
            {
                if j != i && text_eq(self.logs[i].id.as_str(), self.logs[j].id.as_str()) {
                    return false;
                }
                j = j + 1;
            }
            i = i + 1;
        }
        true
    }
}

} // verus!
