use jam_bot::eula::{eula_accept_grants_jammer, find_role_by_name};
use jam_bot::reaction::{
    apply_set_tracked_message, arg_guide_message, emoji_to_role, message_not_found_reply,
    parse_set_tracked_args, reaction_add_role, reaction_option_emojis, reaction_remove_role,
    set_tracked_failed_reply, set_tracked_permission_reply, set_tracked_refusal_message,
    set_tracked_success_reply, ReactionMessageType, SetTrackedParse,
};
use jam_bot::role::GuildRole;
use jam_bot::state::PersistentState;

fn args(words: &[&str]) -> Vec<String> {
    words.iter().map(|w| w.to_string()).collect()
}

#[test]
fn emoji_map_covers_the_seven_options() {
    assert_eq!(emoji_to_role(&"\u{1f4bb}".to_string()), Some("Programmer"));
    assert_eq!(emoji_to_role(&"\u{1f3a8}".to_string()), Some("2D Artist"));
    assert_eq!(emoji_to_role(&"\u{1f5ff}".to_string()), Some("3D Artist"));
    assert_eq!(emoji_to_role(&"\u{1f50a}".to_string()), Some("Sound Designer"));
    assert_eq!(emoji_to_role(&"\u{1f3b5}".to_string()), Some("Musician"));
    assert_eq!(emoji_to_role(&"\u{1f4a1}".to_string()), Some("Idea Guy"));
    assert_eq!(emoji_to_role(&"\u{1f3b2}".to_string()), Some("Board Games"));
    assert_eq!(emoji_to_role(&"\u{1f44d}".to_string()), None);
    assert_eq!(emoji_to_role(&"x".to_string()), None);
}

#[test]
fn set_role_assignment_message_scenario() {
    let mut st = PersistentState::new();
    // A privileged user points the bot at channel 55, message 99.
    let parsed = parse_set_tracked_args(&args(&["<#55>", "99"]));
    match parsed {
        SetTrackedParse::Fetch(c, m) => {
            assert_eq!((c, m), (55, 99));
            apply_set_tracked_message(&mut st, &ReactionMessageType::RoleAssign, c, m);
        }
        _ => panic!("well-formed arguments must parse"),
    }
    assert_eq!(st.get_role_assign_channel(), 55);
    assert_eq!(st.get_role_assign_message(), 99);
    // The EULA reference is untouched.
    assert_eq!(st.get_eula_channel(), 0);

    // The fixed set of option emoji is attached to the message.
    let emojis = reaction_option_emojis();
    assert_eq!(
        emojis,
        vec![
            "\u{1f4bb}",
            "\u{1f3a8}",
            "\u{1f5ff}",
            "\u{1f50a}",
            "\u{1f3b5}",
            "\u{1f4a1}",
            "\u{1f3b2}"
        ]
    );
}

#[test]
fn set_tracked_argument_errors_each_draw_their_reply() {
    assert!(matches!(parse_set_tracked_args(&args(&["<#55>"])), SetTrackedParse::TooFew));
    assert!(matches!(
        parse_set_tracked_args(&args(&["nonsense", "99"])),
        SetTrackedParse::BadChannelRef
    ));
    assert!(matches!(
        parse_set_tracked_args(&args(&["<#18446744073709551616>", "99"])),
        SetTrackedParse::BadChannelRef
    ));
    assert!(matches!(
        parse_set_tracked_args(&args(&["<#55>", "ninetynine"])),
        SetTrackedParse::BadMessageId
    ));

    let t = ReactionMessageType::RoleAssign;
    let guide =
        "Proper usage: `!setroleassign <mention of channel with the message> <message ID>`";
    assert_eq!(arg_guide_message(&t), guide);
    assert_eq!(
        set_tracked_refusal_message(&t, &SetTrackedParse::TooFew).unwrap(),
        guide
    );
    assert_eq!(
        set_tracked_refusal_message(&t, &SetTrackedParse::BadChannelRef).unwrap(),
        format!("Invalid channel reference.\n{}", guide)
    );
    assert_eq!(
        set_tracked_refusal_message(&t, &SetTrackedParse::BadMessageId).unwrap(),
        format!("Message ID must be a number.\n{}", guide)
    );
    assert!(set_tracked_refusal_message(&t, &SetTrackedParse::Fetch(1, 2)).is_none());

    let e = ReactionMessageType::Eula;
    assert_eq!(
        arg_guide_message(&e),
        "Proper usage: `!seteula <mention of channel with the message> <message ID>`"
    );
}

#[test]
fn set_tracked_replies() {
    let t = ReactionMessageType::RoleAssign;
    assert_eq!(
        message_not_found_reply(99, 55),
        "No message with ID 99 was found in <#55>"
    );
    assert_eq!(
        set_tracked_success_reply(&t, 7, 55, "react here"),
        "Server role assignment message set to the following messege by <@7> in <#55>:\n>>> react here"
    );
    assert_eq!(
        set_tracked_failed_reply(&t),
        "Could not set server role assignment message. Check the logs for details."
    );
    assert_eq!(
        set_tracked_permission_reply(&t),
        "Since you lack the required role **Organizer**, you do not have permission \
         to set the server role assignment message."
    );
    let e = ReactionMessageType::Eula;
    assert_eq!(
        set_tracked_failed_reply(&e),
        "Could not set server EULA. Check the logs for details."
    );
}

#[test]
fn reactions_on_the_tracked_message_map_to_roles() {
    let mut st = PersistentState::new();
    apply_set_tracked_message(&mut st, &ReactionMessageType::RoleAssign, 55, 99);
    let bot = 1000;

    assert_eq!(
        reaction_add_role(&st, 55, 99, 7, bot, &"\u{1f4bb}".to_string()),
        Some("Programmer")
    );
    // The bot's own reactions are ignored.
    assert_eq!(reaction_add_role(&st, 55, 99, bot, bot, &"\u{1f4bb}".to_string()), None);
    // Reactions elsewhere are ignored.
    assert_eq!(reaction_add_role(&st, 55, 98, 7, bot, &"\u{1f4bb}".to_string()), None);
    assert_eq!(reaction_add_role(&st, 54, 99, 7, bot, &"\u{1f4bb}".to_string()), None);
    // Unmapped emoji are ignored.
    assert_eq!(reaction_add_role(&st, 55, 99, 7, bot, &"\u{1f44d}".to_string()), None);

    assert_eq!(
        reaction_remove_role(&st, 55, 99, 7, bot, &"\u{1f3b5}".to_string()),
        Some("Musician")
    );
    // The bot's own reaction-removals are ignored, as its additions are.
    assert_eq!(reaction_remove_role(&st, 55, 99, bot, bot, &"\u{1f3b5}".to_string()), None);
    assert_eq!(reaction_remove_role(&st, 55, 98, 7, bot, &"\u{1f3b5}".to_string()), None);
}

#[test]
fn eula_acceptance_needs_the_tracked_message_and_a_thumbs_up() {
    let mut st = PersistentState::new();
    st.set_eula(30, 40);
    assert!(eula_accept_grants_jammer(&st, 30, 40, &"\u{1f44d}".to_string()));
    assert!(!eula_accept_grants_jammer(&st, 30, 41, &"\u{1f44d}".to_string()));
    assert!(!eula_accept_grants_jammer(&st, 31, 40, &"\u{1f44d}".to_string()));
    assert!(!eula_accept_grants_jammer(&st, 30, 40, &"\u{1f4bb}".to_string()));
}

#[test]
fn find_role_by_name_is_case_insensitive_first_match() {
    let roles = vec![
        GuildRole { id: 1, name: "Admin".to_string() },
        GuildRole { id: 2, name: "JAMMER".to_string() },
        GuildRole { id: 3, name: "jammer".to_string() },
    ];
    let found = find_role_by_name(&roles, "Jammer").unwrap();
    assert_eq!(found.0, 2);
    assert_eq!(found.1, "JAMMER");
    assert!(find_role_by_name(&roles, "Nothing").is_none());
}
