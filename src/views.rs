//! What the API hands back: errors and the public views of items and users.
use vstd::prelude::*;
use crate::model::{Item, ItemType, User};
use crate::permission::{permissions_of, UserPermission};

verus! {

/// A failed API call.
#[derive(Debug)]
pub enum ApiError {
    /// A storage or upstream failure, with its message.
    Internal(String),
    /// A refusal with its HTTP status and message.
    Status(u16, String),
}

/// The HTTP status an error is answered with.
pub open spec fn status_of(e: ApiError) -> u16 {
    match e {
        ApiError::Internal(_) => 500,
        ApiError::Status(s, _) => s,
    }
}

/// The message an error carries.
pub open spec fn message_of(e: ApiError) -> Seq<char> {
    match e {
        ApiError::Internal(m) => m@,
        ApiError::Status(_, m) => m@,
    }
}

impl ApiError {
    /// A refusal with an HTTP status, which must be a valid status code.
    pub fn new(status: u16, error: String) -> (r: ApiError)
        requires
            100 <= status <= 999,
        ensures
            status_of(r) == status,
            message_of(r) == error@,
    {
        ApiError::Status(status, error)
    }

    pub fn status(&self) -> (r: u16)
        ensures
            r == status_of(*self),
    {
        match self {
            ApiError::Internal(_) => 500,
            ApiError::Status(s, _) => *s,
        }
    }

    pub fn message(&self) -> (r: &String)
        ensures
            r@ == message_of(*self),
    {
        match self {
            ApiError::Internal(m) => m,
            ApiError::Status(_, m) => m,
        }
    }
}

/// A refusal with a fixed message.
pub fn fail(status: u16, message: &str) -> (r: ApiError)
    requires
        100 <= status <= 999,
    ensures
        status_of(r) == status,
        message_of(r) == message@,
{
    ApiError::new(status, message.to_owned())
}

/// The short public view of an item.
#[derive(Debug)]
pub struct ItemSimplified {
    pub id: String,
    pub short_path: String,
    pub item_type: ItemType,
    pub visits: i64,
    pub created_at: i64,
    pub creator: Option<String>,
}

pub open spec fn simplifies(v: ItemSimplified, it: Item) -> bool {
    &&& v.id@ == it.id@
    &&& v.short_path@ == it.short_path@
    &&& v.item_type == it.item_type
    &&& v.visits == it.visits
    &&& v.created_at == it.created_at
    &&& v.creator == it.creator
}

impl ItemSimplified {
    pub fn from_item(it: &Item) -> (r: ItemSimplified)
        ensures
            simplifies(r, *it),
    {
        ItemSimplified {
            id: it.id.clone(),
            short_path: it.short_path.clone(),
            item_type: it.item_type,
            visits: it.visits,
            created_at: it.created_at,
            creator: it.creator.clone(),
        }
    }
}

/// The full public view of an item; the password digest stays out of it.
#[derive(Debug)]
pub struct ApiItemFull {
    pub id: String,
    pub short_path: String,
    pub item_type: ItemType,
    pub data: String,
    pub expires_at: Option<i64>,
    pub max_visits: Option<i64>,
    pub visits: i64,
    pub created_at: i64,
    pub extra_data: Option<String>,
    pub creator: Option<String>,
}

pub open spec fn fully_shows(v: ApiItemFull, it: Item) -> bool {
    &&& v.id@ == it.id@
    &&& v.short_path@ == it.short_path@
    &&& v.item_type == it.item_type
    &&& v.data@ == it.data@
    &&& v.expires_at == it.expires_at
    &&& v.max_visits == it.max_visits
    &&& v.visits == it.visits
    &&& v.created_at == it.created_at
    &&& v.extra_data == it.extra_data
    &&& v.creator == it.creator
}

impl ApiItemFull {
    pub fn from_item(it: &Item) -> (r: ApiItemFull)
        ensures
            fully_shows(r, *it),
    {
        ApiItemFull {
            id: it.id.clone(),
            short_path: it.short_path.clone(),
            item_type: it.item_type,
            data: it.data.clone(),
            expires_at: it.expires_at,
            max_visits: it.max_visits,
            visits: it.visits,
            created_at: it.created_at,
            extra_data: it.extra_data.clone(),
            creator: it.creator.clone(),
        }
    }
}

/// The public view of a user: no password digest, and the permissions as a list.
#[derive(Debug)]
pub struct ApiUser {
    pub id: String,
    pub name: String,
    pub email: String,
    pub avatar: Option<String>,
    pub created_at: i64,
    pub descriptor: Vec<UserPermission>,
}

pub open spec fn shows_user(v: ApiUser, u: User) -> bool {
    &&& v.id@ == u.id@
    &&& v.name@ == u.name@
    &&& v.email@ == u.email@
    &&& v.avatar == u.avatar
    &&& v.created_at == u.created_at
    &&& v.descriptor@ == permissions_of(u.descriptor)
}

impl ApiUser {
    pub fn from_user(u: &User) -> (r: ApiUser)
        ensures
            shows_user(r, *u),
    {
        ApiUser {
            id: u.id.clone(),
            name: u.name.clone(),
            email: u.email.clone(),
            avatar: u.avatar.clone(),
            created_at: u.created_at,
            descriptor: UserPermission::from_i64(u.descriptor),
        }
    }
}

/// A code item with its text.
#[derive(Debug)]
pub struct ApiCode {
    pub id: String,
    pub path: String,
    pub content: String,
    pub language: Option<String>,
}

impl ApiCode {
    /// The view of a code item whose stored text is `content`; a missing text
    /// reads as `null`.
    pub fn read_from(it: &Item, content: Option<String>) -> (r: ApiCode)
        ensures
            r.id@ == it.id@,
            r.path@ == it.short_path@,
            r.language == it.extra_data,
            r.content@ == (match content {
                Some(c) => c@,
                None => "null"@,
            }),
    {
        let content = match content {
            Some(c) => c,
            None => String::from_str("null"),
        };
        ApiCode {
            id: it.id.clone(),
            path: it.short_path.clone(),
            content,
            language: it.extra_data.clone(),
        }
    }
}

} // verus!
