use vstd::prelude::*;
use crate::deps::current_instant;

verus! {

// Instants are whole seconds since the Unix epoch (UTC).
/// The id of the built-in administrator, who passes every permission check.
pub const ADMIN_USER_ID: &'static str = "00000000-0000-0000-0000-000000000000";

/// The payload reference of a file item whose file has not been uploaded
/// yet: a shared placeholder file that always exists.
pub const PLACEHOLDER_FILE: &'static str = "dummy_file.txt";

/// How long a session token stays valid after it is issued.
pub const TOKEN_LIFETIME_SECS: i64 = 600;

/// How long an unavailable item is kept before it is physically removed.
pub const DROP_GRACE_SECS: i64 = 604800;

/// `t` moved `secs` seconds into the future, pinned at the largest instant.
pub open spec fn later(t: i64, secs: i64) -> i64 {
    if t <= i64::MAX - secs {
        (t + secs) as i64
    } else {
        i64::MAX
    }
}

pub fn later_by(t: i64, secs: i64) -> (r: i64)
    requires
        secs >= 0,
    ensures
        r == later(t, secs),
{
    if t <= i64::MAX - secs {
        t + secs
    } else {
        i64::MAX
    }
}

/// Whether two texts hold the same characters.
pub fn text_eq(a: &str, b: &str) -> (r: bool)
    ensures
        r == (a@ == b@),
{
    let x = a.to_owned();
    let y = b.to_owned();
    x == y
}

/// What an item serves.
#[derive(Debug, Clone, Copy, PartialEq, Eq, Structural)]
pub enum ItemType {
    Link,
    Code,
    File,
}

/// The stored name of each item type.
pub open spec fn item_type_name(t: ItemType) -> Seq<char> {
    match t {
        ItemType::Link => "link"@,
        ItemType::Code => "code"@,
        ItemType::File => "file"@,
    }
}

impl ItemType {
    /// Reads a stored item type name; `None` for any other text.
    pub fn parse(s: &str) -> (r: Option<ItemType>)
        ensures
            r matches Some(t) ==> item_type_name(t) == s@,
            r is None ==> (forall|t: ItemType| item_type_name(t) != s@),
    {
        proof {
            reveal_strlit("link");
            reveal_strlit("code");
            reveal_strlit("file");
        }
        if text_eq(s, "link") {
            Some(ItemType::Link)
        } else if text_eq(s, "code") {
            Some(ItemType::Code)
        } else if text_eq(s, "file") {
            Some(ItemType::File)
        } else {
            proof {
                assert forall|t: ItemType| item_type_name(t) != s@ by {
                    match t {
                        ItemType::Link => {},
                        ItemType::Code => {},
                        ItemType::File => {},
                    }
                }
            }
            None
        }
    }

    pub fn name(&self) -> (r: &'static str)
        ensures
            r@ == item_type_name(*self),
    {
        match self {
            ItemType::Link => "link",
            ItemType::Code => "code",
            ItemType::File => "file",
        }
    }
}

/// The kind of an access recorded in the access log.
#[derive(Debug, Clone, Copy, PartialEq, Eq, Structural)]
pub enum OperationType {
    Get,
    Put,
}

pub open spec fn operation_name(o: OperationType) -> Seq<char> {
    match o {
        OperationType::Get => "get"@,
        OperationType::Put => "set"@,
    }
}

impl OperationType {
    /// Reads a stored operation name; `None` for any other text.
    pub fn parse(s: &str) -> (r: Option<OperationType>)
        ensures
            r matches Some(o) ==> operation_name(o) == s@,
            r is None ==> (forall|o: OperationType| operation_name(o) != s@),
    {
        proof {
            reveal_strlit("get");
            reveal_strlit("set");
        }
        if text_eq(s, "get") {
            Some(OperationType::Get)
        } else if text_eq(s, "set") {
            Some(OperationType::Put)
        } else {
            proof {
                assert forall|o: OperationType| operation_name(o) != s@ by {
                    match o {
                        OperationType::Get => {},
                        OperationType::Put => {},
                    }
                }
            }
            None
        }
    }

    pub fn name(&self) -> (r: &'static str)
        ensures
            r@ == operation_name(*self),
    {
        match self {
            OperationType::Get => "get",
            OperationType::Put => "set",
        }
    }
}

/// A shared resource served at `short_path`.
#[derive(Debug)]
pub struct Item {
    pub id: String,
    pub short_path: String,
    pub item_type: ItemType,
    /// The target URL of a link, or the stored file name of a code or file payload.
    pub data: String,
    pub expires_at: Option<i64>,
    pub max_visits: Option<i64>,
    pub visits: i64,
    pub password_hash: Option<String>,
    pub created_at: i64,
    /// The language of a code item, or the display file name of a file item.
    pub extra_data: Option<String>,
    pub creator: Option<String>,
    pub available: bool,
    pub should_drop_at: Option<i64>,
    /// Whether the uploaded payload was recognised as an image.
    pub img: bool,
}

/// Whether an item may no longer be served at `now`: its expiry time has
/// passed, or it has been visited as often as it allows.
pub open spec fn is_spent(item: Item, now: i64) -> bool {
    (item.expires_at matches Some(t) && t < now)
    || (item.max_visits matches Some(m) && item.visits >= m)
}

impl Item {
    pub fn is_spent_at(&self, now: i64) -> (r: bool)
        ensures
            r == is_spent(*self, now),
    {
        let expired = match self.expires_at {
            Some(t) => t < now,
            None => false,
        };
        let used_up = match self.max_visits {
            Some(m) => self.visits >= m,
            None => false,
        };
        expired || used_up
    }
}

/// A registered account.
#[derive(Debug)]
pub struct User {
    pub id: String,
    pub name: String,
    pub email: String,
    /// The digest of the account's password.
    pub password: String,
    pub avatar: Option<String>,
    pub created_at: i64,
    pub descriptor: i64,
}

/// One recorded access to an item.
#[derive(Debug)]
pub struct AccessLog {
    pub id: String,
    pub item_id: String,
    pub accessed_at: i64,
    pub path: String,
    pub operation: OperationType,
    pub success: bool,
    pub ip_address: String,
    pub initiator: Option<String>,
}

/// A session: the user it authenticates and until when.
#[derive(Debug, Clone)]
pub struct Token {
    pub user_id: String,
    pub expires_at: i64,
    /// A guest token that only allows a single upload.
    pub temporary: bool,
}

impl Token {
    /// A token for `user_id` issued at `now`.
    pub fn issued_at(user_id: String, temporary: bool, now: i64) -> (r: Token)
        ensures
            r.user_id@ == user_id@,
            r.temporary == temporary,
            r.expires_at == later(now, TOKEN_LIFETIME_SECS),
    {
        Token { user_id, expires_at: later_by(now, TOKEN_LIFETIME_SECS), temporary }
    }

    /// A token for `user_id` issued now.
    pub fn new(user_id: String, temporary: bool) -> (r: Token)
        ensures
            r.user_id@ == user_id@,
            r.temporary == temporary,
            exists|t: i64| r.expires_at == later(t, TOKEN_LIFETIME_SECS),
    {
        Token::issued_at(user_id, temporary, current_instant())
    }

    /// Whether the token has expired by now.
    pub fn is_expired(&self) -> (r: bool)
        ensures
            exists|t: i64| r == #[trigger] expired_at(*self, t),
    {
        let now = current_instant();
        let r = self.is_expired_at(now);
        assert(r == expired_at(*self, now));
        r
    }

    pub fn is_expired_at(&self, now: i64) -> (r: bool)
        ensures
            r == (self.expires_at < now),
    {
        self.expires_at < now
    }

    /// Whether the periodic sweep at `now` keeps this token.
    pub fn survives_sweep(&self, now: i64) -> (r: bool)
        ensures
            r == (self.expires_at > now),
    {
        self.expires_at > now
    }
}

/// Whether `token` has expired at `now`.
pub open spec fn expired_at(token: Token, now: i64) -> bool {
    token.expires_at < now
}

/// Settings of the external human-verification service.
#[derive(Debug, Clone)]
pub struct TurnstileConfig {
    pub enabled: bool,
    pub site_key: String,
    pub secret_key: String,
}

/// The public part of the verification settings, as shown to clients.
#[derive(Debug)]
pub struct Config {
    pub turnstile_enabled: bool,
    pub turnstile_site_key: String,
}

impl Config {
    pub fn from_turnstile(t: &TurnstileConfig) -> (r: Config)
        ensures
            r.turnstile_enabled == t.enabled,
            r.turnstile_site_key@ == t.site_key@,
    {
        Config { turnstile_enabled: t.enabled, turnstile_site_key: t.site_key.clone() }
    }
}

/// Where payload files are kept.
#[derive(Debug, Clone)]
pub struct FileAccessor {
    pub data_dir: String,
}

impl FileAccessor {
    pub fn new(data_dir: String) -> (r: FileAccessor)
        ensures
            r.data_dir@ == data_dir@,
    {
        FileAccessor { data_dir }
    }

    /// The path of the payload file `name`.
    pub fn path_of(&self, name: &str) -> (r: String)
        ensures
            r@ == self.data_dir@ + "/"@ + name@,
    {
        let mut p = self.data_dir.clone();
        p.append("/");
        p.append(name);
        p
    }
}

/// What the code page is given besides the code.
#[derive(Debug)]
pub struct CodeInformation {
    pub language: String,
}

/// What the password page is given.
#[derive(Debug)]
pub struct PasswordInformation {
    pub error: bool,
    pub path_name: String,
}

/// A request to create an item.
#[derive(Debug)]
pub struct ApiItemUpload {
    pub data: String,
    pub expires_at: Option<String>,
    pub extra_data: Option<String>,
    pub item_type: ItemType,
    pub max_visits: Option<i64>,
    pub password: Option<String>,
}

} // verus!
