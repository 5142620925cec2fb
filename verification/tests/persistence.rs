use jam_bot::channel::Team;
use jam_bot::persist::{from_json, to_json};
use jam_bot::state::PersistentState;

#[test]
fn fresh_state_serializes_to_an_empty_document() {
    let st = PersistentState::new();
    assert_eq!(
        to_json(&st),
        "{\"theme_ideas\":{},\"channel_creators\":{},\"eula_channel_id\":0,\
         \"eula_message_id\":0,\"role_assign_channel_id\":0,\"role_assign_message_id\":0}"
    );
}

#[test]
fn populated_state_serializes_field_by_field() {
    let mut st = PersistentState::new();
    st.try_add_theme(1, "pixel".to_string());
    st.register_channel_creation(
        7,
        &Team {
            game_name: "Pixel Quest".to_string(),
            category_id: 10,
            text_id: 11,
            voice_id: 12,
        },
    );
    st.set_eula(3, 4);
    st.set_role_assign(5, 6);
    assert_eq!(
        to_json(&st),
        "{\"theme_ideas\":{\"1\":\"pixel\"},\"channel_creators\":{\"7\":{\"game_name\":\
         \"Pixel Quest\",\"category_id\":10,\"text_id\":11,\"voice_id\":12}},\
         \"eula_channel_id\":3,\"eula_message_id\":4,\"role_assign_channel_id\":5,\
         \"role_assign_message_id\":6}"
    );
}

#[test]
fn round_trip_restores_the_record() {
    let mut st = PersistentState::new();
    st.try_add_theme(1, "pixel".to_string());
    st.try_add_theme(2, "voxel".to_string());
    st.register_channel_creation(
        7,
        &Team {
            game_name: "A \\\"quoted\\\" name".to_string(),
            category_id: 10,
            text_id: 11,
            voice_id: 12,
        },
    );
    st.set_eula(3, 4);
    st.set_role_assign(5, 6);

    let doc = to_json(&st);
    let back = from_json(doc.as_str()).expect("a document this crate wrote must parse");

    assert_eq!(back.theme_count(), 2);
    let mut ideas = back.theme_idea_list();
    ideas.sort();
    assert_eq!(ideas, vec!["pixel".to_string(), "voxel".to_string()]);
    let team = back.get_channel_info(7).expect("the team must survive the round trip");
    assert_eq!(team.game_name, "A \\\"quoted\\\" name");
    assert_eq!((team.category_id, team.text_id, team.voice_id), (10, 11, 12));
    assert_eq!(back.get_eula_channel(), 3);
    assert_eq!(back.get_eula_message(), 4);
    assert_eq!(back.get_role_assign_channel(), 5);
    assert_eq!(back.get_role_assign_message(), 6);

    // Serializing the restored record writes the same document.
    assert_eq!(to_json(&back), doc);
}

#[test]
fn entry_free_documents_always_parse() {
    // Decoding is proved total on documents of records without entries,
    // whatever the tracked references hold.
    let doc = "{\"theme_ideas\":{},\"channel_creators\":{},\"eula_channel_id\":31,\
               \"eula_message_id\":42,\"role_assign_channel_id\":18446744073709551615,\
               \"role_assign_message_id\":0}";
    let st = from_json(doc).expect("a canonical entry-free document must parse");
    assert_eq!(st.get_eula_channel(), 31);
    assert_eq!(st.get_eula_message(), 42);
    assert_eq!(st.get_role_assign_channel(), u64::MAX);
    assert_eq!(st.get_role_assign_message(), 0);
    assert_eq!(st.theme_count(), 0);
}

#[test]
fn empty_round_trip() {
    let st = PersistentState::new();
    let doc = to_json(&st);
    let back = from_json(doc.as_str()).unwrap();
    assert_eq!(back.theme_count(), 0);
    assert!(!back.has_created_channel(1));
    assert_eq!(to_json(&back), doc);
}

#[test]
fn non_canonical_documents_are_refused() {
    // Only the canonical form that `to_json` writes is accepted:
    // numbers carry no leading zeros, and keys are not repeated.
    assert!(from_json(
        "{\"theme_ideas\":{},\"channel_creators\":{},\"eula_channel_id\":00,\
         \"eula_message_id\":0,\"role_assign_channel_id\":0,\"role_assign_message_id\":0}"
    )
    .is_none());
    assert!(from_json(
        "{\"theme_ideas\":{\"1\":\"a\",\"1\":\"b\"},\"channel_creators\":{},\
         \"eula_channel_id\":0,\"eula_message_id\":0,\"role_assign_channel_id\":0,\
         \"role_assign_message_id\":0}"
    )
    .is_none());
}

#[test]
fn malformed_documents_are_refused() {
    assert!(from_json("").is_none());
    assert!(from_json("{}").is_none());
    assert!(from_json("{\"theme_ideas\":{").is_none());
    assert!(from_json("not json at all").is_none());
    let mut st = PersistentState::new();
    st.try_add_theme(1, "pixel".to_string());
    let doc = to_json(&st);
    // Truncated documents are refused.
    assert!(from_json(&doc[..doc.len() - 1]).is_none());
    // Trailing garbage is refused.
    assert!(from_json(format!("{} ", doc).as_str()).is_none());
}
