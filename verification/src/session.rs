//! Sessions: groups of SSH profiles, and how a profile is kept in a table row.

use crate::ids;
use crate::ssh::{AuthMethod, SshProfile};
use crate::text;
use uuid::Uuid;
use vstd::prelude::*;

verus! {

/// A folder/group node in the session tree.
#[derive(Debug)]
pub struct SessionGroup {
    pub id: Uuid,
    pub name: String,
    pub parent_id: Option<Uuid>,
    /// Sort order within the parent.
    pub sort_order: i32,
}

impl Clone for SessionGroup {
    fn clone(&self) -> (r: SessionGroup)
        ensures
            r == *self,
    {
        SessionGroup {
            id: self.id,
            name: self.name.clone(),
            parent_id: self.parent_id,
            sort_order: self.sort_order,
        }
    }
}

impl SessionGroup {
    /// Create a new root-level group.
    pub fn new_root(name: String) -> (r: SessionGroup)
        ensures
            r == (SessionGroup { id: r.id, name, parent_id: None, sort_order: 0 }),
    {
        SessionGroup { id: ids::fresh_id(), name, parent_id: None, sort_order: 0 }
    }

    /// Create a child group under a parent.
    pub fn new_child(name: String, parent_id: Uuid) -> (r: SessionGroup)
        ensures
            r == (SessionGroup { id: r.id, name, parent_id: Some(parent_id), sort_order: 0 }),
    {
        SessionGroup { id: ids::fresh_id(), name, parent_id: Some(parent_id), sort_order: 0 }
    }
}

/// Represents either a group or a session leaf in the tree.
#[derive(Debug)]
pub enum SessionTreeNode {
    Group { group: SessionGroup, children: Vec<SessionTreeNode> },
    Session(SshProfile),
}

/// A profile as a table row holds it. A column that did not hold what it should is `None`; the
/// group column holds the empty text for no group.
#[derive(Debug)]
pub struct ProfileRow {
    pub id: Option<Uuid>,
    pub name: String,
    pub host: String,
    pub port: u16,
    pub username: String,
    pub auth: Option<AuthMethod>,
    pub proxy_jump: Option<Vec<String>>,
    pub env: Option<Vec<(String, String)>>,
    pub keepalive: u32,
    pub tags: Option<Vec<String>>,
    pub group: String,
}

/// The value, or what stands in for it.
pub open spec fn or<A>(v: Option<A>, d: A) -> A {
    match v {
        Some(a) => a,
        None => d,
    }
}

/// The row holds the profile, with the empty text for no group.
pub open spec fn holds(row: ProfileRow, profile: SshProfile) -> bool {
    &&& row.id == Some(profile.id)
    &&& row.name == profile.name
    &&& row.host == profile.host
    &&& row.port == profile.port
    &&& row.username == profile.username
    &&& row.auth == Some(profile.auth)
    &&& row.proxy_jump == Some(profile.proxy_jump)
    &&& row.env == Some(profile.env)
    &&& row.keepalive == profile.keepalive_interval
    &&& row.tags == Some(profile.tags)
    &&& match profile.group {
        Some(g) => row.group == g,
        None => row.group@.len() == 0,
    }
}

/// The profile is what the row holds. What a column did not hold is filled in: the ID `new_id`,
/// agent authentication, empty lists.
pub open spec fn held(profile: SshProfile, row: ProfileRow, new_id: Uuid) -> bool {
    &&& profile.id == or(row.id, new_id)
    &&& profile.name == row.name
    &&& profile.host == row.host
    &&& profile.port == row.port
    &&& profile.username == row.username
    &&& profile.auth == or(row.auth, AuthMethod::Agent)
    &&& match row.proxy_jump {
        Some(v) => profile.proxy_jump == v,
        None => profile.proxy_jump@.len() == 0,
    }
    &&& match row.env {
        Some(v) => profile.env == v,
        None => profile.env@.len() == 0,
    }
    &&& profile.keepalive_interval == row.keepalive
    &&& match row.tags {
        Some(v) => profile.tags == v,
        None => profile.tags@.len() == 0,
    }
    &&& profile.group == if row.group@.len() == 0 {
        None
    } else {
        Some(row.group)
    }
}

/// Loading what was saved gives the profile back, unless its group is the empty text.
pub proof fn law_profile_comes_back(
    saved: SshProfile,
    row: ProfileRow,
    loaded: SshProfile,
    new_id: Uuid,
)
    requires
        holds(row, saved),
        held(loaded, row, new_id),
        !(saved.group matches Some(g) && g@.len() == 0),
    ensures
        loaded == saved,
{
}

/// What a list of texts holds.
pub open spec fn texts(v: Seq<String>) -> Seq<Seq<char>> {
    v.map_values(|s: String| s@)
}

/// What a list of pairs of texts holds.
pub open spec fn text_pairs(v: Seq<(String, String)>) -> Seq<(Seq<char>, Seq<char>)> {
    v.map_values(|p: (String, String)| (p.0@, p.1@))
}

/// The ID that a text is, where it is one.
pub uninterp spec fn written_id(s: Seq<char>) -> Option<Uuid>;

/// The list of texts that a JSON text is, where it is one.
pub uninterp spec fn written_texts(s: Seq<char>) -> Option<Seq<Seq<char>>>;

/// The list of pairs of texts that a JSON text is, where it is one.
pub uninterp spec fn written_pairs(s: Seq<char>) -> Option<Seq<(Seq<char>, Seq<char>)>>;

/// `uuid::Uuid::parse_str`: the ID goes by the name `written_id`.
#[verifier::external_body]
fn read_id(s: &str) -> (r: Option<Uuid>)
    ensures
        r == written_id(s@),
{
    Uuid::parse_str(s).ok()
}

/// `uuid::Uuid`'s `to_string`: the hyphenated form, which reads back as the ID.
#[verifier::external_body]
fn write_id(id: &Uuid) -> (r: String)
    ensures
        written_id(r@) == Some(*id),
{
    id.to_string()
}

/// `serde_json::from_str` for a list of texts: the list goes by the name `written_texts`.
#[verifier::external_body]
fn read_texts(s: &str) -> (r: Option<Vec<String>>)
    ensures
        match r {
            Some(v) => written_texts(s@) == Some(texts(v@)),
            None => written_texts(s@) is None,
        },
{
    serde_json::from_str(s).ok()
}

/// `serde_json::to_string` for a list of texts. It fails only where a value refuses to be
/// serialised or a map has keys that are no texts, and a list of texts has neither; the JSON text
/// reads back as the list.
#[verifier::external_body]
fn write_texts(v: &Vec<String>) -> (r: Option<String>)
    ensures
        r.is_some(),
        written_texts(r.unwrap()@) == Some(texts(v@)),
{
    serde_json::to_string(v).ok()
}

/// `serde_json::from_str` for a list of pairs: the list goes by the name `written_pairs`.
#[verifier::external_body]
fn read_pairs(s: &str) -> (r: Option<Vec<(String, String)>>)
    ensures
        match r {
            Some(v) => written_pairs(s@) == Some(text_pairs(v@)),
            None => written_pairs(s@) is None,
        },
{
    serde_json::from_str(s).ok()
}

/// `serde_json::to_string` for a list of pairs of texts, which fails as little as one of texts;
/// the JSON text reads back as the list.
#[verifier::external_body]
fn write_pairs(v: &Vec<(String, String)>) -> (r: Option<String>)
    ensures
        r.is_some(),
        written_pairs(r.unwrap()@) == Some(text_pairs(v@)),
{
    serde_json::to_string(v).ok()
}

/// What the columns of a table row hold of a profile, but for its authentication.
#[derive(Debug)]
pub struct ProfileColumns {
    pub id: String,
    pub proxy_jump: String,
    pub env: String,
    pub tags: String,
}

/// The columns hold the profile's ID and lists.
pub open spec fn written(c: ProfileColumns, profile: SshProfile) -> bool {
    &&& written_id(c.id@) == Some(profile.id)
    &&& written_texts(c.proxy_jump@) == Some(texts(profile.proxy_jump@))
    &&& written_pairs(c.env@) == Some(text_pairs(profile.env@))
    &&& written_texts(c.tags@) == Some(texts(profile.tags@))
}

/// The columns that a profile's ID and lists are saved as; every profile has them.
pub fn columns_of(profile: &SshProfile) -> (r: Option<ProfileColumns>)
    ensures
        r matches Some(c) && written(c, *profile),
{
    let id: String = write_id(&profile.id);
    match (write_texts(&profile.proxy_jump), write_pairs(&profile.env), write_texts(&profile.tags)) {
        (Some(proxy_jump), Some(env), Some(tags)) => Some(
            ProfileColumns { id, proxy_jump, env, tags },
        ),
        _ => None,
    }
}

/// The row that the columns of a table hold. A column that is not what it should be is missing.
pub fn row_of_columns(
    id: &str,
    name: String,
    host: String,
    port: u16,
    username: String,
    auth: Option<AuthMethod>,
    proxy_jump: &str,
    env: &str,
    keepalive: u32,
    tags: &str,
    group: String,
) -> (r: ProfileRow)
    ensures
        r.id == written_id(id@),
        match r.proxy_jump {
            Some(v) => written_texts(proxy_jump@) == Some(texts(v@)),
            None => written_texts(proxy_jump@) is None,
        },
        match r.env {
            Some(v) => written_pairs(env@) == Some(text_pairs(v@)),
            None => written_pairs(env@) is None,
        },
        match r.tags {
            Some(v) => written_texts(tags@) == Some(texts(v@)),
            None => written_texts(tags@) is None,
        },
        r == (ProfileRow {
            id: r.id,
            name,
            host,
            port,
            username,
            auth,
            proxy_jump: r.proxy_jump,
            env: r.env,
            keepalive,
            tags: r.tags,
            group,
        }),
{
    ProfileRow {
        id: read_id(id),
        name,
        host,
        port,
        username,
        auth,
        proxy_jump: read_texts(proxy_jump),
        env: read_pairs(env),
        keepalive,
        tags: read_texts(tags),
        group,
    }
}

/// The profiles are the same, the lists by the texts they hold.
pub open spec fn same_profile(a: SshProfile, b: SshProfile) -> bool {
    &&& texts(a.proxy_jump@) == texts(b.proxy_jump@)
    &&& text_pairs(a.env@) == text_pairs(b.env@)
    &&& texts(a.tags@) == texts(b.tags@)
    &&& a == (SshProfile { proxy_jump: a.proxy_jump, env: a.env, tags: a.tags, ..b })
}

/// A profile that is saved is what is loaded: every profile has columns, and the row that is read
/// from its columns holds it, unless its group is the empty text. The authentication comes back
/// as it was handed over.
pub proof fn law_saved_profile_loads(
    saved: SshProfile,
    columns: Option<ProfileColumns>,
    row: ProfileRow,
    id: &str,
    proxy_jump: &str,
    env: &str,
    tags: &str,
    read: ProfileRow,
    loaded: SshProfile,
)
    requires
        call_ensures(columns_of, (&saved,), columns),
        call_ensures(row_of, (saved,), row),
        columns matches Some(c) ==> id@ == c.id@ && proxy_jump@ == c.proxy_jump@ && env@ == c.env@
            && tags@ == c.tags@,
        call_ensures(
            row_of_columns,
            (
                id,
                row.name,
                row.host,
                row.port,
                row.username,
                row.auth,
                proxy_jump,
                env,
                row.keepalive,
                tags,
                row.group,
            ),
            read,
        ),
        call_ensures(load_row, (read,), loaded),
        !(saved.group matches Some(g) && g@.len() == 0),
    ensures
        columns is Some,
        same_profile(loaded, saved),
{
}

/// The row that a profile is saved as.
pub fn row_of(profile: SshProfile) -> (r: ProfileRow)
    ensures
        holds(r, profile),
{
    ProfileRow {
        id: Some(profile.id),
        name: profile.name,
        host: profile.host,
        port: profile.port,
        username: profile.username,
        auth: Some(profile.auth),
        proxy_jump: Some(profile.proxy_jump),
        env: Some(profile.env),
        keepalive: profile.keepalive_interval,
        tags: Some(profile.tags),
        group: match profile.group {
            Some(g) => g,
            None => String::new(),
        },
    }
}

/// The profile that a row holds, with `new_id` where the row has no ID.
pub fn profile_of(row: ProfileRow, new_id: Uuid) -> (r: SshProfile)
    ensures
        held(r, row, new_id),
{
    SshProfile {
        id: match row.id {
            Some(id) => id,
            None => new_id,
        },
        name: row.name,
        host: row.host,
        port: row.port,
        username: row.username,
        auth: match row.auth {
            Some(a) => a,
            None => AuthMethod::Agent,
        },
        proxy_jump: match row.proxy_jump {
            Some(v) => v,
            None => Vec::new(),
        },
        env: match row.env {
            Some(v) => v,
            None => Vec::new(),
        },
        keepalive_interval: row.keepalive,
        tags: match row.tags {
            Some(v) => v,
            None => Vec::new(),
        },
        group: if row.group.as_str().is_empty() {
            None
        } else {
            Some(row.group)
        },
    }
}

/// The profile that a row holds, with a fresh ID where the row has none.
pub fn load_row(row: ProfileRow) -> (r: SshProfile)
    ensures
        exists|new_id: Uuid| #[trigger] held(r, row, new_id),
{
    let new_id: Uuid = ids::fresh_id();
    profile_of(row, new_id)
}

/// An old table definition holds foreign keys, and the table has to be made anew.
pub fn needs_migration(sql: &str) -> (r: bool)
    ensures
        r == text::contains_word(sql@, "FOREIGN KEY"@),
{
    let chars: Vec<char> = text::to_chars(sql);
    let word: Vec<char> = text::to_chars("FOREIGN KEY");
    text::contains(chars.as_slice(), word.as_slice())
}

} // verus!
