use jam_bot::role::{
    assign_failed_reply, assigned_reply, decide_role_change, is_requestable_role, member_has_role,
    role_error_message, role_help_message, strip_failed_reply, stripped_reply, GuildRole,
    RoleChange, RoleError,
};
use jam_bot::router::{help_message, route, unrecognised_command_reply, with_mention, Command};

fn guild_roles() -> Vec<GuildRole> {
    vec![
        GuildRole { id: 1, name: "Organizer".to_string() },
        GuildRole { id: 2, name: "Jammer".to_string() },
        GuildRole { id: 3, name: "Programmer".to_string() },
        GuildRole { id: 4, name: "Sound Designer".to_string() },
    ]
}

#[test]
fn allow_list_is_case_insensitive_and_closed() {
    assert!(is_requestable_role("Programmer"));
    assert!(is_requestable_role("PROGRAMMER"));
    assert!(is_requestable_role("sound designer"));
    assert!(is_requestable_role("Play Tester"));
    assert!(!is_requestable_role("Organizer"));
    assert!(!is_requestable_role("Moderator"));
    assert!(!is_requestable_role(""));
}

#[test]
fn membership_check_matches_names_case_insensitively() {
    let roles = guild_roles();
    let member = vec![2u64, 3u64];
    assert!(member_has_role(&roles, &member, "jammer"));
    assert!(member_has_role(&roles, &member, "Programmer"));
    assert!(!member_has_role(&roles, &member, "Organizer"));
    assert!(!member_has_role(&roles, &member, "Sound Designer"));
    assert!(!member_has_role(&roles, &vec![], "Jammer"));
}

#[test]
fn role_change_decision_walks_the_guild_list() {
    let roles = guild_roles();
    let member = vec![3u64];

    match decide_role_change(&roles, &member, "programmer", true) {
        RoleChange::AlreadySet(name) => assert_eq!(name, "Programmer"),
        _ => panic!("granting a held role must report it as already set"),
    }
    match decide_role_change(&roles, &member, "sound designer", true) {
        RoleChange::Grant(id, name) => {
            assert_eq!(id, 4);
            assert_eq!(name, "Sound Designer");
        }
        _ => panic!("granting an unheld role must ask the platform"),
    }
    match decide_role_change(&roles, &member, "programmer", false) {
        RoleChange::Revoke(id, name) => {
            assert_eq!(id, 3);
            assert_eq!(name, "Programmer");
        }
        _ => panic!("revoking a held role must ask the platform"),
    }
    match decide_role_change(&roles, &member, "sound designer", false) {
        RoleChange::NotSet(name) => assert_eq!(name, "Sound Designer"),
        _ => panic!("revoking an unheld role must report it as not set"),
    }
    assert!(matches!(
        decide_role_change(&roles, &member, "nothing", true),
        RoleChange::InvalidName
    ));
}

#[test]
fn role_replies_are_exact() {
    assert_eq!(
        role_error_message(&RoleError::AlreadySet("Musician".to_string())),
        "Role **Musician** already set"
    );
    assert_eq!(
        role_error_message(&RoleError::NotSet("Musician".to_string())),
        "Role **Musician** not set"
    );
    assert_eq!(
        role_error_message(&RoleError::InvalidName("ghost role".to_string())),
        "Invalid role name \"ghost role\""
    );
    assert_eq!(
        role_error_message(&RoleError::RequestFailed("missing permission".to_string())),
        "Discord error: missing permission"
    );
    assert_eq!(assigned_reply("Musician"), "You have been assigned the role **Musician**.");
    assert_eq!(stripped_reply("Musician"), "You have been stripped of the role **Musician**.");
    assert_eq!(
        assign_failed_reply("Role **Musician** already set"),
        "Couldn't assign role to you: Role **Musician** already set"
    );
    assert_eq!(
        strip_failed_reply("Role **Musician** not set"),
        "Couldn't strip you of role: Role **Musician** not set"
    );
    assert!(role_help_message().starts_with("You need to to specify a valid role."));
}

#[test]
fn router_dispatches_on_the_first_token() {
    let (cmd, rest) = route("!help");
    assert!(matches!(cmd, Command::Help));
    assert!(rest.is_empty());

    let (cmd, rest) = route("!createchannels Pixel Quest");
    assert!(matches!(cmd, Command::CreateChannels));
    assert_eq!(rest, vec!["Pixel", "Quest"]);

    assert!(matches!(route("!renamechannels New").0, Command::RenameChannels));
    assert!(matches!(route("!removechannels <@!5>").0, Command::RemoveChannels));
    assert!(matches!(route("!role Musician").0, Command::GiveRole));
    assert!(matches!(route("!leave Musician").0, Command::LeaveRole));
    assert!(matches!(route("!generatetheme").0, Command::GenerateTheme));
    assert!(matches!(route("!showallthemes").0, Command::ShowAllThemes));
    assert!(matches!(route("!seteula <#1> 2").0, Command::SetEula));
    assert!(matches!(route("!setroleassign <#1> 2").0, Command::SetRoleAssign));
    assert!(matches!(route("").0, Command::Empty));
    assert!(matches!(route("   ").0, Command::Empty));
    assert!(matches!(route("hello there").0, Command::NotCommand));

    let (cmd, rest) = route("   !help   now");
    assert!(matches!(cmd, Command::Help));
    assert_eq!(rest, vec!["now"]);

    match route("!frobnicate now").0 {
        Command::Unknown(s) => assert_eq!(s, "!frobnicate"),
        _ => panic!("an unknown sigil-prefixed token must be reported"),
    }
    assert_eq!(
        unrecognised_command_reply("!frobnicate"),
        "Unrecognised command `!frobnicate`."
    );
}

#[test]
fn help_message_grows_with_the_callers_roles() {
    let plain = help_message(false, false);
    let jammer = help_message(false, true);
    let organizer = help_message(true, false);

    assert_eq!(
        plain,
        "Send me a PM to submit theme ideas.\n\nGet a role to signify one of your skill sets \
         with the command `!role <role name>`\nand leave a role with `!leave <role name>`."
    );
    assert!(!plain.contains("!createchannels"));
    assert!(jammer.starts_with(plain.as_str()));
    assert!(jammer.contains("!createchannels"));
    assert!(!jammer.contains("!generatetheme"));
    assert!(organizer.starts_with(jammer.as_str()));
    assert!(organizer.contains("**Organizer**"));
    assert!(organizer.contains("!generatetheme"));
    assert!(organizer.contains("!seteula"));
}

#[test]
fn replies_open_with_an_at_mention() {
    assert_eq!(with_mention(41, "hello"), "<@41> hello");
}
