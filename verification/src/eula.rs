//! Accepting the EULA: a thumbs-up reaction on the tracked EULA message
//! earns the jammer role.
use vstd::prelude::*;

use crate::role::GuildRole;
use crate::state::PersistentState;
use crate::text::str_eq;

verus! {

/// A reaction accepts the EULA exactly when it lands on the tracked EULA
/// message and is a thumbs-up.
pub open spec fn eula_accept_spec(
    watched: (u64, u64),
    channel: u64,
    message: u64,
    emoji: Seq<char>,
) -> bool {
    channel == watched.0 && message == watched.1 && emoji == "\u{1f44d}"@
}

/// Whether an added reaction accepts the EULA, so that the reactor earns
/// the jammer role.
pub fn eula_accept_grants_jammer(
    state: &PersistentState,
    channel_id: u64,
    message_id: u64,
    emoji: &String,
) -> (r: bool)
    ensures
        r == eula_accept_spec(state.eula_ref(), channel_id, message_id, emoji@),
{
    channel_id == state.get_eula_channel() && message_id == state.get_eula_message() && str_eq(
        emoji.as_str(),
        "\u{1f44d}",
    )
}

/// The first guild role with the given name, compared case-insensitively
/// — the role the EULA handler grants.
pub open spec fn find_role_spec(roles: Seq<GuildRole>, target: Seq<char>) -> Option<GuildRole>
    decreases roles.len(),
{
    if roles.len() == 0 {
        Option::None
    } else if crate::role::lower_of(roles[0].name@) == crate::role::lower_of(target) {
        Option::Some(roles[0])
    } else {
        find_role_spec(roles.drop_first(), target)
    }
}

/// Finds the first guild role named `name`, case-insensitively.
pub fn find_role_by_name(guild_roles: &Vec<GuildRole>, name: &str) -> (r: Option<(u64, String)>)
    ensures
        match (r, find_role_spec(guild_roles@, name@)) {
            (Option::Some(p), Option::Some(role)) => p.0 == role.id && p.1@ == role.name@,
            (Option::None, Option::None) => true,
            _ => false,
        },
{
    let target = crate::role::lowercase(name);
    let n = guild_roles.len();
    let mut i: usize = 0;
    proof {
        assert(guild_roles@.skip(0) =~= guild_roles@);
    }
    while i < n
        invariant
            n == guild_roles@.len(),
            target@ == crate::role::lower_of(name@),
            i <= n,
            find_role_spec(guild_roles@.skip(i as int), name@) == find_role_spec(
                guild_roles@,
                name@,
            ),
        decreases n - i,
    {
        proof {
            assert(guild_roles@.skip(i as int)[0] == guild_roles@[i as int]);
            assert(guild_roles@.skip(i as int).drop_first() =~= guild_roles@.skip(i + 1));
        }
        let low = crate::role::lowercase(guild_roles[i].name.as_str());
        if str_eq(low.as_str(), target.as_str()) {
            return Some((guild_roles[i].id, guild_roles[i].name.clone()));
        }
        i += 1;
    }
    proof {
        assert(guild_roles@.skip(n as int) =~= Seq::<GuildRole>::empty());
    }
    None
}

} // verus!
