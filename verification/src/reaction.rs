//! Reaction-driven role assignment and the command that points the bot at
//! a tracked message: argument parsing, the emoji-to-role table, and the
//! exact replies.
use vstd::prelude::*;

use crate::mention::{channel_mention_prefix, mention_parse_of, parse_channel_mention, MentionParse};
use crate::roles;
use crate::state::PersistentState;
use crate::text::{dec_of, dec_val, is_dec_digit, parse_u64, str_eq, str_to_chars, u64_to_dec};

verus! {

/// Which tracked message a command configures.
#[derive(Debug)]
pub enum ReactionMessageType {
    Eula,
    RoleAssign,
}

/// The option emoji attached to a fresh role-assignment message, in the
/// order they are attached.
pub open spec fn reaction_option_emoji_names() -> Seq<Seq<char>> {
    seq!["\u{1f4bb}"@, "\u{1f3a8}"@, "\u{1f5ff}"@, "\u{1f50a}"@, "\u{1f3b5}"@, "\u{1f4a1}"@,
        "\u{1f3b2}"@]
}

pub fn reaction_option_emojis() -> (r: Vec<&'static str>)
    ensures
        r.deep_view() == reaction_option_emoji_names(),
{
    let v: Vec<&'static str> = vec![
        "\u{1f4bb}",
        "\u{1f3a8}",
        "\u{1f5ff}",
        "\u{1f50a}",
        "\u{1f3b5}",
        "\u{1f4a1}",
        "\u{1f3b2}",
    ];
    proof {
        assert(v.deep_view() =~= reaction_option_emoji_names());
    }
    v
}

/// The fixed emoji-to-role table of the role-assignment message.
pub open spec fn emoji_role_spec(e: Seq<char>) -> Option<Seq<char>> {
    if e == "\u{1f4bb}"@ {
        Option::Some("Programmer"@)
    } else if e == "\u{1f3a8}"@ {
        Option::Some("2D Artist"@)
    } else if e == "\u{1f5ff}"@ {
        Option::Some("3D Artist"@)
    } else if e == "\u{1f50a}"@ {
        Option::Some("Sound Designer"@)
    } else if e == "\u{1f3b5}"@ {
        Option::Some("Musician"@)
    } else if e == "\u{1f4a1}"@ {
        Option::Some("Idea Guy"@)
    } else if e == "\u{1f3b2}"@ {
        Option::Some("Board Games"@)
    } else {
        Option::None
    }
}

/// Maps a reaction emoji to the role it stands for; unmapped emoji give
/// nothing.
pub fn emoji_to_role(emoji: &String) -> (r: Option<&'static str>)
    ensures
        match r {
            Some(name) => emoji_role_spec(emoji@) == Option::Some(name@),
            None => emoji_role_spec(emoji@) is None,
        },
{
    if str_eq(emoji.as_str(), "\u{1f4bb}") {
        Some("Programmer")
    } else if str_eq(emoji.as_str(), "\u{1f3a8}") {
        Some("2D Artist")
    } else if str_eq(emoji.as_str(), "\u{1f5ff}") {
        Some("3D Artist")
    } else if str_eq(emoji.as_str(), "\u{1f50a}") {
        Some("Sound Designer")
    } else if str_eq(emoji.as_str(), "\u{1f3b5}") {
        Some("Musician")
    } else if str_eq(emoji.as_str(), "\u{1f4a1}") {
        Some("Idea Guy")
    } else if str_eq(emoji.as_str(), "\u{1f3b2}") {
        Some("Board Games")
    } else {
        None
    }
}

/// The role a reaction on the tracked role-assignment message stands
/// for; reactions elsewhere stand for nothing.
pub open spec fn reaction_role_spec(
    watched: (u64, u64),
    channel: u64,
    message: u64,
    emoji: Seq<char>,
) -> Option<Seq<char>> {
    if channel == watched.0 && message == watched.1 {
        emoji_role_spec(emoji)
    } else {
        Option::None
    }
}

/// The role to grant for an added reaction; the bot's own reactions grant
/// nothing.
pub fn reaction_add_role(
    state: &PersistentState,
    channel_id: u64,
    message_id: u64,
    reactor: u64,
    bot_user: u64,
    emoji: &String,
) -> (r: Option<&'static str>)
    ensures
        ({
            let expected = if reactor != bot_user {
                reaction_role_spec(state.role_assign_ref(), channel_id, message_id, emoji@)
            } else {
                Option::None
            };
            match r {
                Some(name) => expected == Option::Some(name@),
                None => expected is None,
            }
        }),
{
    if channel_id == state.get_role_assign_channel() && message_id
        == state.get_role_assign_message() && reactor != bot_user {
        emoji_to_role(emoji)
    } else {
        None
    }
}

/// The role to revoke for a removed reaction; the bot's own reactions
/// revoke nothing.
pub fn reaction_remove_role(
    state: &PersistentState,
    channel_id: u64,
    message_id: u64,
    reactor: u64,
    bot_user: u64,
    emoji: &String,
) -> (r: Option<&'static str>)
    ensures
        ({
            let expected = if reactor != bot_user {
                reaction_role_spec(state.role_assign_ref(), channel_id, message_id, emoji@)
            } else {
                Option::None
            };
            match r {
                Some(name) => expected == Option::Some(name@),
                None => expected is None,
            }
        }),
{
    if channel_id == state.get_role_assign_channel() && message_id
        == state.get_role_assign_message() && reactor != bot_user {
        emoji_to_role(emoji)
    } else {
        None
    }
}

// ---------------------------------------------------------------------------
// Configuring a tracked message
// ---------------------------------------------------------------------------

/// How the two arguments of a set-tracked-message command were read.
#[derive(Debug)]
pub enum SetTrackedParse {
    /// Fewer than two arguments.
    TooFew,
    /// The first argument holds no channel mention that fits an
    /// identifier.
    BadChannelRef,
    /// The second argument is no number that fits an identifier.
    BadMessageId,
    /// Fetch this message (channel, message) from the platform.
    Fetch(u64, u64),
}

/// The numeric value of a whole token, as `str::parse::<u64>` reads it.
pub open spec fn token_u64(s: Seq<char>) -> Option<u64> {
    if s.len() > 0 && (forall|i: int| 0 <= i < s.len() ==> is_dec_digit(s[i])) && dec_val(s)
        <= u64::MAX {
        Option::Some(dec_val(s) as u64)
    } else {
        Option::None
    }
}

pub open spec fn set_tracked_parse_spec(args: Seq<Seq<char>>) -> SetTrackedParse {
    if args.len() < 2 {
        SetTrackedParse::TooFew
    } else {
        match mention_parse_of(args[0], channel_mention_prefix()) {
            MentionParse::NoRef => SetTrackedParse::BadChannelRef,
            MentionParse::BadId => SetTrackedParse::BadChannelRef,
            MentionParse::Id(c) => match token_u64(args[1]) {
                Option::None => SetTrackedParse::BadMessageId,
                Option::Some(m) => SetTrackedParse::Fetch(c, m),
            },
        }
    }
}

/// Reads the channel mention and message identifier off a
/// set-tracked-message command.
pub fn parse_set_tracked_args(rest_command: &Vec<String>) -> (r: SetTrackedParse)
    ensures
        r == set_tracked_parse_spec(rest_command.deep_view()),
{
    if rest_command.len() < 2 {
        return SetTrackedParse::TooFew;
    }
    match parse_channel_mention(rest_command[0].as_str()) {
        MentionParse::NoRef => SetTrackedParse::BadChannelRef,
        MentionParse::BadId => SetTrackedParse::BadChannelRef,
        MentionParse::Id(c) => {
            let digits = str_to_chars(rest_command[1].as_str());
            match parse_u64(&digits) {
                None => SetTrackedParse::BadMessageId,
                Some(m) => SetTrackedParse::Fetch(c, m),
            }
        },
    }
}

/// Stores the tracked reference the command configures, overwriting the
/// previous one; the other tracked reference and the rest of the record
/// stay as they were.
pub fn apply_set_tracked_message(
    state: &mut PersistentState,
    msg_type: &ReactionMessageType,
    channel_id: u64,
    message_id: u64,
)
    requires
        old(state).wf(),
    ensures
        final(state).wf(),
        final(state).themes() == old(state).themes(),
        final(state).teams() == old(state).teams(),
        match msg_type {
            ReactionMessageType::Eula => final(state).eula_ref() == (channel_id, message_id)
                && final(state).role_assign_ref() == old(state).role_assign_ref(),
            ReactionMessageType::RoleAssign => final(state).role_assign_ref() == (
                channel_id,
                message_id,
            ) && final(state).eula_ref() == old(state).eula_ref(),
        },
{
    match msg_type {
        ReactionMessageType::Eula => state.set_eula(channel_id, message_id),
        ReactionMessageType::RoleAssign => state.set_role_assign(channel_id, message_id),
    }
}

/// What the configured message is called in replies.
pub open spec fn msg_type_name_spec(t: ReactionMessageType) -> Seq<char> {
    match t {
        ReactionMessageType::Eula => "EULA"@,
        ReactionMessageType::RoleAssign => "role assignment message"@,
    }
}

pub fn msg_type_name(t: &ReactionMessageType) -> (r: &'static str)
    ensures
        r@ == msg_type_name_spec(*t),
{
    match t {
        ReactionMessageType::Eula => "EULA",
        ReactionMessageType::RoleAssign => "role assignment message",
    }
}

/// The command word that configures each tracked message.
pub open spec fn msg_type_command_spec(t: ReactionMessageType) -> Seq<char> {
    match t {
        ReactionMessageType::Eula => "seteula"@,
        ReactionMessageType::RoleAssign => "setroleassign"@,
    }
}

pub fn msg_type_command(t: &ReactionMessageType) -> (r: &'static str)
    ensures
        r@ == msg_type_command_spec(*t),
{
    match t {
        ReactionMessageType::Eula => "seteula",
        ReactionMessageType::RoleAssign => "setroleassign",
    }
}

/// The usage line of a set-tracked-message command.
pub open spec fn arg_guide_spec(t: ReactionMessageType) -> Seq<char> {
    "Proper usage: `!"@ + msg_type_command_spec(t)
        + " <mention of channel with the message> <message ID>`"@
}

pub fn arg_guide_message(t: &ReactionMessageType) -> (r: String)
    ensures
        r@ == arg_guide_spec(*t),
{
    let mut m = String::new();
    m.append("Proper usage: `!");
    m.append(msg_type_command(t));
    m.append(" <mention of channel with the message> <message ID>`");
    proof {
        assert(m@ =~= arg_guide_spec(*t));
    }
    m
}

/// The reply for each way the arguments can be refused; a successful
/// parse draws none here.
pub fn set_tracked_refusal_message(t: &ReactionMessageType, p: &SetTrackedParse) -> (r: Option<
    String,
>)
    ensures
        match p {
            SetTrackedParse::TooFew => r matches Some(m) && m@ == arg_guide_spec(*t),
            SetTrackedParse::BadChannelRef => r matches Some(m) && m@
                == "Invalid channel reference.\n"@ + arg_guide_spec(*t),
            SetTrackedParse::BadMessageId => r matches Some(m) && m@
                == "Message ID must be a number.\n"@ + arg_guide_spec(*t),
            SetTrackedParse::Fetch(_, _) => r is None,
        },
{
    match p {
        SetTrackedParse::TooFew => Some(arg_guide_message(t)),
        SetTrackedParse::BadChannelRef => {
            let mut m = String::new();
            m.append("Invalid channel reference.\n");
            let guide = arg_guide_message(t);
            m.append(guide.as_str());
            Some(m)
        },
        SetTrackedParse::BadMessageId => {
            let mut m = String::new();
            m.append("Message ID must be a number.\n");
            let guide = arg_guide_message(t);
            m.append(guide.as_str());
            Some(m)
        },
        SetTrackedParse::Fetch(_, _) => None,
    }
}

/// The reply when the referenced message could not be fetched.
pub open spec fn message_not_found_spec(message_id: u64, channel_id: u64) -> Seq<char> {
    "No message with ID "@ + dec_of(message_id as nat) + " was found in <#"@ + dec_of(
        channel_id as nat,
    ) + ">"@
}

pub fn message_not_found_reply(message_id: u64, channel_id: u64) -> (r: String)
    ensures
        r@ == message_not_found_spec(message_id, channel_id),
{
    let mut m = String::new();
    m.append("No message with ID ");
    let mid = u64_to_dec(message_id);
    m.append(mid.as_str());
    m.append(" was found in <#");
    let cid = u64_to_dec(channel_id);
    m.append(cid.as_str());
    m.append(">");
    proof {
        assert(m@ =~= message_not_found_spec(message_id, channel_id));
    }
    m
}

/// The reply announcing the newly tracked message, quoting it.
pub open spec fn set_tracked_success_spec(
    t: ReactionMessageType,
    author: u64,
    channel: u64,
    content: Seq<char>,
) -> Seq<char> {
    "Server "@ + msg_type_name_spec(t) + " set to the following messege by <@"@ + dec_of(
        author as nat,
    ) + "> in <#"@ + dec_of(channel as nat) + ">:\n>>> "@ + content
}

pub fn set_tracked_success_reply(
    t: &ReactionMessageType,
    author: u64,
    channel: u64,
    content: &str,
) -> (r: String)
    ensures
        r@ == set_tracked_success_spec(*t, author, channel, content@),
{
    let mut m = String::new();
    m.append("Server ");
    m.append(msg_type_name(t));
    m.append(" set to the following messege by <@");
    let a = u64_to_dec(author);
    m.append(a.as_str());
    m.append("> in <#");
    let c = u64_to_dec(channel);
    m.append(c.as_str());
    m.append(">:\n>>> ");
    m.append(content);
    proof {
        assert(m@ =~= set_tracked_success_spec(*t, author, channel, content@));
    }
    m
}

/// The reply when storing the tracked reference failed.
pub fn set_tracked_failed_reply(t: &ReactionMessageType) -> (r: String)
    ensures
        r@ == "Could not set server "@ + msg_type_name_spec(*t) + ". Check the logs for details."@,
{
    let mut m = String::new();
    m.append("Could not set server ");
    m.append(msg_type_name(t));
    m.append(". Check the logs for details.");
    proof {
        assert(m@ =~= "Could not set server "@ + msg_type_name_spec(*t)
            + ". Check the logs for details."@);
    }
    m
}

/// The reply refusing the command to a caller without the organizer role.
pub fn set_tracked_permission_reply(t: &ReactionMessageType) -> (r: String)
    ensures
        r@ == "Since you lack the required role **"@ + roles::organizer_name()
            + "**, you do not have permission to set the server "@ + msg_type_name_spec(*t)
            + "."@,
{
    let mut m = String::new();
    m.append("Since you lack the required role **");
    m.append(roles::organizer());
    m.append("**, you do not have permission to set the server ");
    m.append(msg_type_name(t));
    m.append(".");
    proof {
        assert(m@ =~= "Since you lack the required role **"@ + roles::organizer_name()
            + "**, you do not have permission to set the server "@ + msg_type_name_spec(*t)
            + "."@);
    }
    m
}

} // verus!
