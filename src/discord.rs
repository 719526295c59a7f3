//! What the login flow decides from the identity provider's answers: the
//! granted scopes, guild membership, the new user record and avatar URLs.

use vstd::prelude::*;

use crate::models::TimeSinceEpoch;

verus! {

/// The identity provider's account record.
#[derive(Debug)]
pub struct User {
    pub id: String,
    pub username: String,
    pub global_name: Option<String>,
    pub avatar: Option<String>,
}

/// A guild (server) the account belongs to.
#[derive(Debug)]
pub struct Guild {
    pub id: String,
}

pub open spec fn has_scope(granted: Seq<String>, scope: Seq<char>) -> bool {
    exists|i: int| 0 <= i < granted.len() && #[trigger] granted[i]@ == scope
}

fn grants(granted: &Vec<String>, scope: &str) -> (r: bool)
    ensures
        r == has_scope(granted@, scope@),
{
    let wanted = String::from_str(scope);
    let mut i: usize = 0;
    while i < granted.len()
        invariant
            i <= granted@.len(),
            wanted@ == scope@,
            forall|j: int| 0 <= j < i ==> (#[trigger] granted@[j])@ != scope@,
        decreases granted@.len() - i,
    {
        if granted[i] == wanted {
            return true;
        }
        i += 1;
    }
    false
}

/// Whether the login granted both scopes the instancer asks for,
/// `identify` and `guilds`.
pub fn has_required_scopes(granted: &Vec<String>) -> (r: bool)
    ensures
        r == (has_scope(granted@, "identify"@) && has_scope(granted@, "guilds"@)),
{
    grants(granted, "identify") && grants(granted, "guilds")
}

/// Whether one of `guilds` is the server `server_id`.
pub fn is_guild_member(guilds: &Vec<Guild>, server_id: &str) -> (r: bool)
    ensures
        r == exists|i: int| 0 <= i < guilds@.len() && #[trigger] guilds@[i].id@ == server_id@,
{
    let wanted = String::from_str(server_id);
    let mut i: usize = 0;
    while i < guilds.len()
        invariant
            i <= guilds@.len(),
            wanted@ == server_id@,
            forall|j: int| 0 <= j < i ==> (#[trigger] guilds@[j]).id@ != server_id@,
        decreases guilds@.len() - i,
    {
        if guilds[i].id == wanted {
            return true;
        }
        i += 1;
    }
    false
}

/// The user record made at a first login at `now`: the display name is the
/// global name, or the username without one, and no instances yet.
pub fn new_user(account: User, now: TimeSinceEpoch) -> (r: crate::models::User)
    ensures
        r == (crate::models::User {
            id: account.id,
            username: account.username,
            display_name: match account.global_name {
                Some(g) => g,
                None => account.username,
            },
            avatar: account.avatar,
            creation_time: now,
            instance_count: 0,
        }),
{
    let display_name = match account.global_name {
        Some(g) => g,
        None => account.username.clone(),
    };
    crate::models::User {
        id: account.id,
        username: account.username,
        display_name,
        avatar: account.avatar,
        creation_time: now,
        instance_count: 0,
    }
}

pub open spec fn avatar_url_of(id: Seq<char>, avatar: Option<String>) -> Seq<char> {
    match avatar {
        None => "https://discordapp.com/assets/a0180771ce23344c2a95.png"@,
        Some(hash) => "https://cdn.discordapp.com/avatars/"@ + id + "/"@ + hash@ + ".png"@,
    }
}

/// The avatar image of account `id`: its own, or the default one.
pub fn avatar_url(id: &str, avatar: &Option<String>) -> (r: String)
    ensures
        r@ == avatar_url_of(id@, *avatar),
{
    match avatar {
        None => String::from_str("https://discordapp.com/assets/a0180771ce23344c2a95.png"),
        Some(hash) => String::from_str("https://cdn.discordapp.com/avatars/").concat(id).concat("/").concat(hash.as_str()).concat(
            ".png",
        ),
    }
}

} // verus!
