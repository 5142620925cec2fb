use jam_bot::channel::{
    category_name_for, channel_topic_for, compose_rename_reply, create_success_message,
    create_team_precheck, creation_error_message, finish_remove_channels, not_jammer_message,
    register_created_team, remove_channels_decision, remove_refusal_message, rename_precheck,
    rename_refusal_message, ChannelCreationError, RemoveDecision, RemoveOutcome, RenameOutcome,
    RenameRefusal,
};
use jam_bot::state::PersistentState;

fn args(words: &[&str]) -> Vec<String> {
    words.iter().map(|w| w.to_string()).collect()
}

#[test]
fn create_channels_scenario_pixel_quest() {
    let mut st = PersistentState::new();
    let user = 41;

    // The prechecks pass and hand back the raw name.
    let name = match create_team_precheck(&st, user, &args(&["Pixel", "Quest"])) {
        Ok(n) => n,
        Err(_) => panic!("fresh user with a valid name must pass the prechecks"),
    };
    assert_eq!(name, "Pixel Quest");

    // The three resources are requested in order category, text, voice;
    // these are the names and topic handed to the requests.
    assert_eq!(category_name_for(name.as_str()), "Team: Pixel Quest");
    assert_eq!(
        channel_topic_for(name.as_str()),
        "Work on and playtesting of the game Pixel Quest."
    );

    // Registration maps the user to the three identifiers and the
    // sanitized name, and the reply names the text channel.
    let team = register_created_team(&mut st, user, name.as_str(), 100, 101, 102);
    assert_eq!(team.game_name, "Pixel Quest");
    assert_eq!((team.category_id, team.text_id, team.voice_id), (100, 101, 102));
    assert!(st.has_created_channel(user));
    assert_eq!(
        create_success_message(&team),
        "Channels created for your game **Pixel Quest** here: <#101>"
    );

    // A second attempt before removal echoes the same text channel.
    match create_team_precheck(&st, user, &args(&["Pixel", "Quest"])) {
        Err(e) => {
            assert!(matches!(e, ChannelCreationError::AlreadyCreated(u) if u == user));
            assert_eq!(
                creation_error_message(&e, &st),
                "You have already created channels for your game **Pixel Quest** here: <#101>\n\
                 Try using `!renamechannels <new game name>` instead if you wish to rename them."
            );
        }
        Ok(_) => panic!("a second creation attempt must be refused"),
    }
}

#[test]
fn create_precheck_rejects_missing_and_invalid_names() {
    let st = PersistentState::new();
    assert!(matches!(
        create_team_precheck(&st, 1, &args(&[])),
        Err(ChannelCreationError::NoName)
    ));
    assert!(matches!(
        create_team_precheck(&st, 1, &args(&["bad`name"])),
        Err(ChannelCreationError::InvalidName)
    ));
    assert!(matches!(
        create_team_precheck(&st, 1, &args(&["bad|name"])),
        Err(ChannelCreationError::InvalidName)
    ));
}

#[test]
fn creation_error_messages_cover_every_failure() {
    let st = PersistentState::new();
    assert_eq!(
        creation_error_message(&ChannelCreationError::NoName, &st),
        "You need to specify a game name."
    );
    assert_eq!(
        creation_error_message(&ChannelCreationError::InvalidName, &st),
        "Game names cannot contain the characters ` or |"
    );
    assert_eq!(
        creation_error_message(&ChannelCreationError::CategoryNotCreated, &st),
        "I asked Discord for a category but got something else. \u{1f914}"
    );
    assert_eq!(
        creation_error_message(&ChannelCreationError::TextNotCreated, &st),
        "I asked Discord for a text channel but got something else. \u{1f914}"
    );
    assert_eq!(
        creation_error_message(&ChannelCreationError::VoiceNotCreated, &st),
        "I asked Discord for a voice channel but got something else. \u{1f914}"
    );
    assert_eq!(
        creation_error_message(&ChannelCreationError::CategoryCreationFailed, &st),
        "Category creation failed."
    );
    assert_eq!(
        creation_error_message(&ChannelCreationError::TextCreationFailed, &st),
        "Text channel creation failed."
    );
    assert_eq!(
        creation_error_message(&ChannelCreationError::VoiceCreationFailed, &st),
        "Voice channel creation failed."
    );
}

#[test]
fn not_jammer_reply_names_the_gatekeeping_role() {
    let m = not_jammer_message();
    assert!(m.starts_with("Oo, you found a secret command."));
    assert!(m.contains("**Jammer**"));
}

#[test]
fn rename_prechecks_run_in_order() {
    let mut st = PersistentState::new();
    assert!(matches!(rename_precheck(&st, 1, &args(&[])), Err(RenameRefusal::NoArgs)));
    assert!(matches!(
        rename_precheck(&st, 1, &args(&["new|name"])),
        Err(RenameRefusal::InvalidName)
    ));
    assert!(matches!(rename_precheck(&st, 1, &args(&["Fine"])), Err(RenameRefusal::NoTeam)));
    register_created_team(&mut st, 1, "Old", 1, 2, 3);
    assert_eq!(rename_precheck(&st, 1, &args(&["New", "Name"])).unwrap(), "New Name");

    assert!(rename_refusal_message(&RenameRefusal::NoArgs).is_none());
    assert_eq!(
        rename_refusal_message(&RenameRefusal::InvalidName).unwrap(),
        "Game names cannot contain the characters ` or |"
    );
    assert_eq!(
        rename_refusal_message(&RenameRefusal::NoTeam).unwrap(),
        "You have not created a channel yet.\nTry using `!createchannels <game name>` instead."
    );
}

#[test]
fn rename_reply_enumerates_successes_and_failures() {
    let all = RenameOutcome {
        category: Some("Team: New".to_string()),
        text: Some(("new".to_string(), 101)),
        voice: Some("New".to_string()),
    };
    assert_eq!(
        compose_rename_reply(&all, "New"),
        "Renamed category to **Team: New**, text channel to **#new** (found here: <#101>) \
         and voice channel to **New** for your game **New**."
    );

    let partial = RenameOutcome {
        category: Some("Team: New".to_string()),
        text: None,
        voice: None,
    };
    assert_eq!(
        compose_rename_reply(&partial, "New"),
        "Renamed category to **Team: New** for your game **New** but its \
         text channel and voice channel have been removed, it seems."
    );

    let one_missing = RenameOutcome {
        category: Some("Team: New".to_string()),
        text: Some(("new".to_string(), 101)),
        voice: None,
    };
    assert_eq!(
        compose_rename_reply(&one_missing, "New"),
        "Renamed category to **Team: New** and text channel to **#new** (found here: <#101>) \
         for your game **New** but its voice channel has been removed, it seems."
    );

    let none = RenameOutcome { category: None, text: None, voice: None };
    assert_eq!(
        compose_rename_reply(&none, "New"),
        "Category, text channel and voice channel for your game **New** \
         have been removed, it seems."
    );
}

#[test]
fn remove_decision_checks_in_order() {
    let mut st = PersistentState::new();
    assert!(matches!(
        remove_channels_decision(&st, false, &args(&["<@!5>"])),
        RemoveDecision::NotOrganizer
    ));
    assert!(matches!(
        remove_channels_decision(&st, true, &args(&[])),
        RemoveDecision::MissingArg
    ));
    assert!(matches!(
        remove_channels_decision(&st, true, &args(&["nonsense"])),
        RemoveDecision::InvalidUserRef
    ));
    assert!(matches!(
        remove_channels_decision(&st, true, &args(&["<@!18446744073709551616>"])),
        RemoveDecision::InvalidUserId
    ));
    assert!(matches!(
        remove_channels_decision(&st, true, &args(&["<@!5>"])),
        RemoveDecision::NoTeam
    ));
    register_created_team(&mut st, 5, "Their Game", 1, 2, 3);
    match remove_channels_decision(&st, true, &args(&["<@!5>"])) {
        RemoveDecision::Proceed(user, team) => {
            assert_eq!(user, 5);
            assert_eq!(team.game_name, "Their Game");
        }
        _ => panic!("an organizer removing an existing team must proceed"),
    }

    assert_eq!(
        remove_refusal_message(&RemoveDecision::NotOrganizer).unwrap(),
        "You need to be an **organizer** to use this command."
    );
    assert_eq!(
        remove_refusal_message(&RemoveDecision::MissingArg).unwrap(),
        "You forgot to provide a user id."
    );
    assert_eq!(
        remove_refusal_message(&RemoveDecision::InvalidUserRef).unwrap(),
        "Invalid user reference."
    );
    assert_eq!(
        remove_refusal_message(&RemoveDecision::InvalidUserId).unwrap(),
        "That user id is invalid."
    );
    assert_eq!(
        remove_refusal_message(&RemoveDecision::NoTeam).unwrap(),
        "That user does not have any team channels."
    );
}

#[test]
fn removal_unregisters_even_when_every_deletion_failed() {
    let mut st = PersistentState::new();
    register_created_team(&mut st, 5, "Doomed", 1, 2, 3);
    assert!(st.has_created_channel(5));
    let outcome = RemoveOutcome { category: None, text: None, voice: None };
    let reply = finish_remove_channels(&mut st, 5, &outcome, "Doomed");
    assert!(!st.has_created_channel(5));
    assert_eq!(
        reply,
        "Category, text channel and voice channel for the game **Doomed** \
         have already been removed."
    );
}

#[test]
fn removal_reply_enumerates_with_category_first() {
    let mut st = PersistentState::new();
    register_created_team(&mut st, 5, "Done", 1, 2, 3);
    let outcome = RemoveOutcome {
        category: Some("Team: Done".to_string()),
        text: Some("done".to_string()),
        voice: Some("Done".to_string()),
    };
    let reply = finish_remove_channels(&mut st, 5, &outcome, "Done");
    assert_eq!(
        reply,
        "Removed category **Team: Done**, text channel **#done** and voice channel **Done** \
         for the game **Done**."
    );
    assert!(!st.has_created_channel(5));

    register_created_team(&mut st, 6, "Half", 1, 2, 3);
    let outcome = RemoveOutcome {
        category: None,
        text: Some("half".to_string()),
        voice: Some("Half".to_string()),
    };
    let reply = finish_remove_channels(&mut st, 6, &outcome, "Half");
    assert_eq!(
        reply,
        "Removed text channel **#half** and voice channel **Half** for the game **Half** \
         but its category has already been removed."
    );
}
