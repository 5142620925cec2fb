//! Role self-assignment: the case-insensitive allow-list check, the
//! decision of what a grant or revoke request does against the guild's
//! roles and the member's current roles, and the exact replies.
use vstd::prelude::*;

use crate::roles;
use crate::text::str_eq;

verus! {

/// What `str::to_lowercase` returns: it depends on the characters alone.
pub uninterp spec fn lower_of(s: Seq<char>) -> Seq<char>;

/// Relies on str::to_lowercase: Unicode lowercasing; the result depends
/// on the characters alone, and an empty string stays empty.
#[verifier::external_body]
pub(crate) fn lowercase(s: &str) -> (r: String)
    ensures
        r@ == lower_of(s@),
        s@.len() == 0 ==> r@.len() == 0,
{
    s.to_lowercase()
}

/// A guild role as the logic reads it: its identifier and display name.
#[derive(Debug)]
pub struct GuildRole {
    pub id: u64,
    pub name: String,
}

/// Whether `name` names one of the self-assignable roles, compared
/// case-insensitively.
pub open spec fn spec_is_requestable(name: Seq<char>) -> bool {
    exists|i: int|
        0 <= i < roles::requestable_role_names().len() && lower_of(name) == lower_of(
            #[trigger] roles::requestable_role_names()[i],
        )
}

pub fn is_requestable_role(name: &str) -> (r: bool)
    ensures
        r == spec_is_requestable(name@),
{
    let allowed = roles::requestable_roles();
    let target = lowercase(name);
    let n = allowed.len();
    let mut i: usize = 0;
    while i < n
        invariant
            n == allowed@.len(),
            allowed.deep_view() == roles::requestable_role_names(),
            target@ == lower_of(name@),
            i <= n,
            forall|k: int|
                0 <= k < i ==> lower_of(name@) != lower_of(
                    #[trigger] roles::requestable_role_names()[k],
                ),
        decreases n - i,
    {
        let low = lowercase(allowed[i]);
        if str_eq(target.as_str(), low.as_str()) {
            proof {
                assert(allowed@[i as int]@ == roles::requestable_role_names()[i as int]);
            }
            return true;
        }
        proof {
            assert(allowed@[i as int]@ == roles::requestable_role_names()[i as int]);
        }
        i += 1;
    }
    false
}

/// Whether the member holds a guild role whose name matches `target`
/// case-insensitively.
pub open spec fn spec_has_role(
    guild_roles: Seq<GuildRole>,
    member_roles: Seq<u64>,
    target: Seq<char>,
) -> bool {
    exists|i: int|
        0 <= i < guild_roles.len() && lower_of((#[trigger] guild_roles[i]).name@) == lower_of(
            target,
        ) && member_roles.contains(guild_roles[i].id)
}

/// The membership check behind every permission gate, on the fetched
/// guild roles and the member's role identifiers.
pub fn member_has_role(guild_roles: &Vec<GuildRole>, member_roles: &Vec<u64>, role_name: &str) -> (r:
    bool)
    ensures
        r == spec_has_role(guild_roles@, member_roles@, role_name@),
{
    let target = lowercase(role_name);
    let n = guild_roles.len();
    let mut i: usize = 0;
    while i < n
        invariant
            n == guild_roles@.len(),
            target@ == lower_of(role_name@),
            i <= n,
            forall|k: int|
                0 <= k < i ==> !(lower_of((#[trigger] guild_roles@[k]).name@) == lower_of(
                    role_name@,
                ) && member_roles@.contains(guild_roles@[k].id)),
        decreases n - i,
    {
        let low = lowercase(guild_roles[i].name.as_str());
        if str_eq(low.as_str(), target.as_str()) && contains_id(member_roles, guild_roles[i].id) {
            return true;
        }
        i += 1;
    }
    false
}

fn contains_id(v: &Vec<u64>, x: u64) -> (r: bool)
    ensures
        r == v@.contains(x),
{
    let n = v.len();
    let mut i: usize = 0;
    while i < n
        invariant
            n == v@.len(),
            i <= n,
            forall|k: int| 0 <= k < i ==> v@[k] != x,
        decreases n - i,
    {
        if v[i] == x {
            return true;
        }
        i += 1;
    }
    false
}

/// What a grant or revoke request does, decided by the first guild role
/// whose name matches case-insensitively, as a request walking the role
/// list would.
#[derive(Debug)]
pub enum RoleChange {
    /// Ask the platform to add this role (identifier, display name).
    Grant(u64, String),
    /// Ask the platform to remove this role.
    Revoke(u64, String),
    /// The member already holds the role.
    AlreadySet(String),
    /// The member does not hold the role.
    NotSet(String),
    /// No guild role has that name.
    InvalidName,
}

/// The decision, at the specification level: the display name is the
/// matched role's, and `granting` picks between the grant and revoke
/// families.
pub enum SpecRoleChange {
    Grant(u64, Seq<char>),
    Revoke(u64, Seq<char>),
    AlreadySet(Seq<char>),
    NotSet(Seq<char>),
    InvalidName,
}

pub open spec fn role_change_spec(
    guild_roles: Seq<GuildRole>,
    member_roles: Seq<u64>,
    target: Seq<char>,
    granting: bool,
) -> SpecRoleChange
    decreases guild_roles.len(),
{
    if guild_roles.len() == 0 {
        SpecRoleChange::InvalidName
    } else if lower_of(guild_roles[0].name@) == lower_of(target) {
        let role = guild_roles[0];
        if granting {
            if member_roles.contains(role.id) {
                SpecRoleChange::AlreadySet(role.name@)
            } else {
                SpecRoleChange::Grant(role.id, role.name@)
            }
        } else {
            if member_roles.contains(role.id) {
                SpecRoleChange::Revoke(role.id, role.name@)
            } else {
                SpecRoleChange::NotSet(role.name@)
            }
        }
    } else {
        role_change_spec(guild_roles.drop_first(), member_roles, target, granting)
    }
}

/// Decides what a grant (`granting`) or revoke request does, from the
/// guild's roles and the member's current role identifiers.
pub fn decide_role_change(
    guild_roles: &Vec<GuildRole>,
    member_roles: &Vec<u64>,
    role_name: &str,
    granting: bool,
) -> (r: RoleChange)
    ensures
        match (r, role_change_spec(guild_roles@, member_roles@, role_name@, granting)) {
            (RoleChange::Grant(id, name), SpecRoleChange::Grant(sid, sname)) => id == sid && name@
                == sname,
            (RoleChange::Revoke(id, name), SpecRoleChange::Revoke(sid, sname)) => id == sid
                && name@ == sname,
            (RoleChange::AlreadySet(name), SpecRoleChange::AlreadySet(sname)) => name@ == sname,
            (RoleChange::NotSet(name), SpecRoleChange::NotSet(sname)) => name@ == sname,
            (RoleChange::InvalidName, SpecRoleChange::InvalidName) => true,
            _ => false,
        },
{
    let target = lowercase(role_name);
    let n = guild_roles.len();
    let mut i: usize = 0;
    proof {
        assert(guild_roles@.skip(0) =~= guild_roles@);
    }
    while i < n
        invariant
            n == guild_roles@.len(),
            target@ == lower_of(role_name@),
            i <= n,
            role_change_spec(guild_roles@.skip(i as int), member_roles@, role_name@, granting)
                == role_change_spec(guild_roles@, member_roles@, role_name@, granting),
        decreases n - i,
    {
        proof {
            assert(guild_roles@.skip(i as int)[0] == guild_roles@[i as int]);
            assert(guild_roles@.skip(i as int).drop_first() =~= guild_roles@.skip(i + 1));
        }
        let low = lowercase(guild_roles[i].name.as_str());
        if str_eq(low.as_str(), target.as_str()) {
            let role_id = guild_roles[i].id;
            let name = guild_roles[i].name.clone();
            if granting {
                if contains_id(member_roles, role_id) {
                    return RoleChange::AlreadySet(name);
                } else {
                    return RoleChange::Grant(role_id, name);
                }
            } else {
                if contains_id(member_roles, role_id) {
                    return RoleChange::Revoke(role_id, name);
                } else {
                    return RoleChange::NotSet(name);
                }
            }
        }
        i += 1;
    }
    proof {
        assert(guild_roles@.skip(n as int) =~= Seq::<GuildRole>::empty());
    }
    RoleChange::InvalidName
}

/// Why a role request failed, as the role command reports it.
#[derive(Debug)]
pub enum RoleError {
    /// The platform refused the grant or revoke request; the detail text
    /// is quoted in the reply.
    RequestFailed(String),
    /// No guild role has the requested name.
    InvalidName(String),
    /// The member already holds the role.
    AlreadySet(String),
    /// The member does not hold the role.
    NotSet(String),
}

/// The reply text for each way a role request can fail.
pub fn role_error_message(e: &RoleError) -> (m: String)
    ensures
        match e {
            RoleError::RequestFailed(detail) => m@ == "Discord error: "@ + detail@,
            RoleError::InvalidName(name) => m@ == "Invalid role name \""@ + name@ + "\""@,
            RoleError::AlreadySet(name) => m@ == "Role **"@ + name@ + "** already set"@,
            RoleError::NotSet(name) => m@ == "Role **"@ + name@ + "** not set"@,
        },
{
    match e {
        RoleError::RequestFailed(detail) => {
            let mut m = String::new();
            m.append("Discord error: ");
            m.append(detail.as_str());
            m
        },
        RoleError::InvalidName(name) => {
            let mut m = String::new();
            m.append("Invalid role name \"");
            m.append(name.as_str());
            m.append("\"");
            proof {
                assert(m@ =~= "Invalid role name \""@ + name@ + "\""@);
            }
            m
        },
        RoleError::AlreadySet(name) => {
            let mut m = String::new();
            m.append("Role **");
            m.append(name.as_str());
            m.append("** already set");
            proof {
                assert(m@ =~= "Role **"@ + name@ + "** already set"@);
            }
            m
        },
        RoleError::NotSet(name) => {
            let mut m = String::new();
            m.append("Role **");
            m.append(name.as_str());
            m.append("** not set");
            proof {
                assert(m@ =~= "Role **"@ + name@ + "** not set"@);
            }
            m
        },
    }
}

/// The fallback reply naming the requestable roles, sent when no valid
/// role was asked for.
pub open spec fn role_help_message_spec() -> Seq<char> {
    "You need to to specify a valid role.\nAvailable roles are:```\nProgrammer\n2D Artist\n3D Artist\nSound Designer\nMusician\nIdea Guy\nBoard Games```"@
}

pub fn role_help_message() -> (r: String)
    ensures
        r@ == role_help_message_spec(),
{
    String::from_str(
        "You need to to specify a valid role.\nAvailable roles are:```\nProgrammer\n2D Artist\n3D Artist\nSound Designer\nMusician\nIdea Guy\nBoard Games```",
    )
}

/// `!role` success: the member was given the role.
pub fn assigned_reply(role_name: &str) -> (r: String)
    ensures
        r@ == "You have been assigned the role **"@ + role_name@ + "**."@,
{
    let mut m = String::new();
    m.append("You have been assigned the role **");
    m.append(role_name);
    m.append("**.");
    proof {
        assert(m@ =~= "You have been assigned the role **"@ + role_name@ + "**."@);
    }
    m
}

/// `!leave` success: the member was stripped of the role.
pub fn stripped_reply(role_name: &str) -> (r: String)
    ensures
        r@ == "You have been stripped of the role **"@ + role_name@ + "**."@,
{
    let mut m = String::new();
    m.append("You have been stripped of the role **");
    m.append(role_name);
    m.append("**.");
    proof {
        assert(m@ =~= "You have been stripped of the role **"@ + role_name@ + "**."@);
    }
    m
}

/// `!role` failure, wrapping the error text.
pub fn assign_failed_reply(error_text: &str) -> (r: String)
    ensures
        r@ == "Couldn't assign role to you: "@ + error_text@,
{
    let mut m = String::new();
    m.append("Couldn't assign role to you: ");
    m.append(error_text);
    m
}

/// `!leave` failure, wrapping the error text.
pub fn strip_failed_reply(error_text: &str) -> (r: String)
    ensures
        r@ == "Couldn't strip you of role: "@ + error_text@,
{
    let mut m = String::new();
    m.append("Couldn't strip you of role: ");
    m.append(error_text);
    m
}

} // verus!
