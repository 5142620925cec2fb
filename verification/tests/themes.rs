use jam_bot::state::PersistentState;
use jam_bot::theme::{
    all_themes_reply, do_theme_generation, format_all_ideas, generate_theme_permission_reply,
    handle_add_theme, show_themes_permission_reply,
};

#[test]
fn submissions_with_more_or_fewer_than_one_token_are_rejected() {
    let mut st = PersistentState::new();
    let reply = handle_add_theme(&mut st, 1, "two words");
    assert_eq!(reply, "Themes ideas should only be a single word.");
    assert_eq!(st.theme_count(), 0);

    let reply = handle_add_theme(&mut st, 1, "   ");
    assert_eq!(reply, "Themes ideas should only be a single word.");
    assert_eq!(st.theme_count(), 0);

    let reply = handle_add_theme(&mut st, 1, "many words in a row here");
    assert_eq!(reply, "Themes ideas should only be a single word.");
    assert_eq!(st.theme_count(), 0);
}

#[test]
fn single_word_submissions_are_stored_and_replacements_reported() {
    let mut st = PersistentState::new();
    let reply = handle_add_theme(&mut st, 1, "gravity");
    assert_eq!(reply, "Theme idea \"gravity\" registered, thanks!");
    assert_eq!(st.theme_count(), 1);

    // Leading and trailing whitespace still leaves a single token.
    let reply = handle_add_theme(&mut st, 1, "  rockets  ");
    assert_eq!(
        reply,
        "You can only submit one idea.\nTheme idea \"  rockets  \" registered, \
         replacing your previous submission \"gravity\"."
    );
    assert_eq!(st.theme_count(), 1);
}

#[test]
fn generation_needs_two_ideas() {
    assert_eq!(
        do_theme_generation(&vec![]),
        "Not enough ideas have been submitted yet."
    );
    assert_eq!(
        do_theme_generation(&vec!["alone".to_string()]),
        "Not enough ideas have been submitted yet."
    );
}

#[test]
fn generation_with_two_ideas_names_both_in_some_order() {
    let ideas = vec!["fire".to_string(), "ice".to_string()];
    let mut seen_fire_first = false;
    let mut seen_ice_first = false;
    for _ in 0..200 {
        let theme = do_theme_generation(&ideas);
        if theme == "The theme is: fire ice" {
            seen_fire_first = true;
        } else if theme == "The theme is: ice fire" {
            seen_ice_first = true;
        } else {
            panic!("unexpected theme message: {}", theme);
        }
    }
    // The order is drawn at random, so over many draws both orders occur.
    assert!(seen_fire_first && seen_ice_first);
}

#[test]
fn generation_picks_two_distinct_ideas() {
    let ideas: Vec<String> = (0..5).map(|i| format!("idea{}", i)).collect();
    for _ in 0..100 {
        let theme = do_theme_generation(&ideas);
        let rest = theme.strip_prefix("The theme is: ").unwrap();
        let parts: Vec<&str> = rest.split(' ').collect();
        assert_eq!(parts.len(), 2);
        assert_ne!(parts[0], parts[1]);
        assert!(ideas.iter().any(|i| i == parts[0]));
        assert!(ideas.iter().any(|i| i == parts[1]));
    }
}

#[test]
fn all_ideas_listing_joins_with_commas() {
    let mut st = PersistentState::new();
    handle_add_theme(&mut st, 1, "fire");
    handle_add_theme(&mut st, 2, "ice");
    handle_add_theme(&mut st, 3, "wind");
    let ideas = st.theme_idea_list();
    let listing = format_all_ideas(&ideas);
    assert_eq!(listing, "fire, ice, wind");
    assert_eq!(
        all_themes_reply(listing.as_str()),
        "The theme ideas submitted are ```fire, ice, wind```"
    );
}

#[test]
fn theme_permission_replies_name_the_organizer_role() {
    assert_eq!(
        generate_theme_permission_reply(),
        "Since you lack the required role **Organizer**, you do not have permission \
         to generate themes."
    );
    assert_eq!(
        show_themes_permission_reply(),
        "Since you lack the required role **Organizer**, you do not have permission \
         to see all the theme ideas."
    );
}
