//! The command router: which handler an inbound message's first token
//! selects, the help message tailored to the caller's roles, and the
//! at-mention prefix every reply carries.
use vstd::prelude::*;

use crate::roles;
use crate::text::{dec_of, lemma_tokens_nonempty, str_eq, tokenize, tokens_of, u64_to_dec};

verus! {

/// The command an inbound guild message selects.
#[derive(Debug)]
pub enum Command {
    /// The message has no tokens.
    Empty,
    Help,
    CreateChannels,
    RenameChannels,
    RemoveChannels,
    GiveRole,
    LeaveRole,
    GenerateTheme,
    ShowAllThemes,
    SetEula,
    SetRoleAssign,
    /// A sigil-prefixed token that names no command.
    Unknown(String),
    /// Not a command; the router replies only if the bot is mentioned.
    NotCommand,
}

pub open spec fn known_command_token(t: Seq<char>) -> bool {
    ||| t == "!help"@
    ||| t == "!createchannels"@
    ||| t == "!renamechannels"@
    ||| t == "!removechannels"@
    ||| t == "!role"@
    ||| t == "!leave"@
    ||| t == "!generatetheme"@
    ||| t == "!showallthemes"@
    ||| t == "!seteula"@
    ||| t == "!setroleassign"@
}

/// Splits the message and picks the command its first token names; the
/// remaining tokens are the handler's arguments.
pub fn route(content: &str) -> (r: (Command, Vec<String>))
    ensures
        ({
            let toks = tokens_of(content@);
            &&& r.1.deep_view() == if toks.len() == 0 {
                Seq::<Seq<char>>::empty()
            } else {
                toks.drop_first()
            }
            &&& match r.0 {
                Command::Empty => toks.len() == 0,
                Command::Help => toks.len() > 0 && toks[0] == "!help"@,
                Command::CreateChannels => toks.len() > 0 && toks[0] == "!createchannels"@,
                Command::RenameChannels => toks.len() > 0 && toks[0] == "!renamechannels"@,
                Command::RemoveChannels => toks.len() > 0 && toks[0] == "!removechannels"@,
                Command::GiveRole => toks.len() > 0 && toks[0] == "!role"@,
                Command::LeaveRole => toks.len() > 0 && toks[0] == "!leave"@,
                Command::GenerateTheme => toks.len() > 0 && toks[0] == "!generatetheme"@,
                Command::ShowAllThemes => toks.len() > 0 && toks[0] == "!showallthemes"@,
                Command::SetEula => toks.len() > 0 && toks[0] == "!seteula"@,
                Command::SetRoleAssign => toks.len() > 0 && toks[0] == "!setroleassign"@,
                Command::Unknown(s) => toks.len() > 0 && s@ == toks[0] && toks[0].len() > 0
                    && toks[0][0] == '!' && !known_command_token(toks[0]),
                Command::NotCommand => toks.len() > 0 && toks[0].len() > 0 && toks[0][0] != '!',
            }
        }),
{
    let mut words = tokenize(content);
    proof {
        lemma_tokens_nonempty(content@);
    }
    if words.len() == 0 {
        return (Command::Empty, words);
    }
    let first = words.remove(0);
    proof {
        assert(words.deep_view() =~= tokens_of(content@).drop_first());
        assert(first@ == tokens_of(content@)[0]);
    }
    let head = first.as_str();
    let cmd = if str_eq(head, "!help") {
        Command::Help
    } else if str_eq(head, "!createchannels") {
        Command::CreateChannels
    } else if str_eq(head, "!renamechannels") {
        Command::RenameChannels
    } else if str_eq(head, "!removechannels") {
        Command::RemoveChannels
    } else if str_eq(head, "!role") {
        Command::GiveRole
    } else if str_eq(head, "!leave") {
        Command::LeaveRole
    } else if str_eq(head, "!generatetheme") {
        Command::GenerateTheme
    } else if str_eq(head, "!showallthemes") {
        Command::ShowAllThemes
    } else if str_eq(head, "!seteula") {
        Command::SetEula
    } else if str_eq(head, "!setroleassign") {
        Command::SetRoleAssign
    } else if first.as_str().get_char(0) == '!' {
        Command::Unknown(first)
    } else {
        Command::NotCommand
    };
    (cmd, words)
}

/// The reply to an unrecognised sigil-prefixed token; the help message
/// follows it.
pub fn unrecognised_command_reply(token: &str) -> (r: String)
    ensures
        r@ == "Unrecognised command `"@ + token@ + "`."@,
{
    let mut m = String::new();
    m.append("Unrecognised command `");
    m.append(token);
    m.append("`.");
    proof {
        assert(m@ =~= "Unrecognised command `"@ + token@ + "`."@);
    }
    m
}

pub open spec fn standard_help() -> Seq<char> {
    "Send me a PM to submit theme ideas.\n\nGet a role to signify one of your skill sets with the command `!role <role name>`\nand leave a role with `!leave <role name>`."@
}

pub open spec fn jammer_help() -> Seq<char> {
    "You can also ask for text and voice channels for your game with the command `!createchannels <game name>`\nand rename them with `!renamechannels <new game name>`."@
}

pub open spec fn organizer_help() -> Seq<char> {
    "Since you have the **"@ + roles::organizer_name()
        + "** role, you also have access to the following commands:\n- `!generatetheme` to generate a theme.\n- `!showallthemes` to view all the theme ideas that have been submitted.\n- `!removechannels <mention of user>` to remove a user's created channel.\n- `!seteula <mention of channel with the message> <message ID>` to set the message acting as the server's EULA.\n- `!setroleassign <mention of channel with the message> <message ID>` to set the server's role assignment message."@
}

/// The help message, tailored to the caller's roles: everyone sees the
/// basics, jammers the channel commands, organizers everything.
pub open spec fn help_message_spec(is_organizer: bool, is_jammer: bool) -> Seq<char> {
    if is_organizer {
        standard_help() + "\n\n"@ + jammer_help() + "\n\n"@ + organizer_help()
    } else if is_jammer {
        standard_help() + "\n\n"@ + jammer_help()
    } else {
        standard_help()
    }
}

pub fn help_message(is_organizer: bool, is_jammer: bool) -> (r: String)
    ensures
        r@ == help_message_spec(is_organizer, is_jammer),
{
    let mut m = String::from_str(
        "Send me a PM to submit theme ideas.\n\nGet a role to signify one of your skill sets with the command `!role <role name>`\nand leave a role with `!leave <role name>`.",
    );
    if is_organizer || is_jammer {
        m.append("\n\n");
        m.append(
            "You can also ask for text and voice channels for your game with the command `!createchannels <game name>`\nand rename them with `!renamechannels <new game name>`.",
        );
    }
    if is_organizer {
        m.append("\n\n");
        m.append("Since you have the **");
        m.append(roles::organizer());
        m.append(
            "** role, you also have access to the following commands:\n- `!generatetheme` to generate a theme.\n- `!showallthemes` to view all the theme ideas that have been submitted.\n- `!removechannels <mention of user>` to remove a user's created channel.\n- `!seteula <mention of channel with the message> <message ID>` to set the message acting as the server's EULA.\n- `!setroleassign <mention of channel with the message> <message ID>` to set the server's role assignment message.",
        );
    }
    proof {
        assert(m@ =~= help_message_spec(is_organizer, is_jammer));
    }
    m
}

/// Every reply opens with an at-mention of the requesting user.
pub open spec fn mention_prefixed_spec(user: u64, content: Seq<char>) -> Seq<char> {
    "<@"@ + dec_of(user as nat) + "> "@ + content
}

pub fn with_mention(user_id: u64, content: &str) -> (r: String)
    ensures
        r@ == mention_prefixed_spec(user_id, content@),
{
    let mut m = String::new();
    m.append("<@");
    let id = u64_to_dec(user_id);
    m.append(id.as_str());
    m.append("> ");
    m.append(content);
    proof {
        assert(m@ =~= mention_prefixed_spec(user_id, content@));
    }
    m
}

} // verus!
