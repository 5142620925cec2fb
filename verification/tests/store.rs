use jam_bot::channel::Team;
use jam_bot::state::{PersistentState, SubmissionResult};

fn team(name: &str, cat: u64, text: u64, voice: u64) -> Team {
    Team { game_name: name.to_string(), category_id: cat, text_id: text, voice_id: voice }
}

#[test]
fn team_lifecycle_registration_controls_has_team() {
    let mut st = PersistentState::new();
    assert!(!st.has_created_channel(1));

    st.register_channel_creation(1, &team("Alpha", 10, 11, 12));
    assert!(st.has_created_channel(1));
    assert!(!st.has_created_channel(2));

    // Mutations elsewhere leave user 1's team alone.
    st.register_channel_creation(2, &team("Beta", 20, 21, 22));
    st.set_role_assign(5, 6);
    st.set_eula(7, 8);
    let _ = st.try_add_theme(1, "idea".to_string());
    assert!(st.has_created_channel(1));

    st.remove_channel(1);
    assert!(!st.has_created_channel(1));
    assert!(st.has_created_channel(2));
}

#[test]
fn remove_channel_without_team_is_no_op() {
    let mut st = PersistentState::new();
    st.remove_channel(42);
    assert!(!st.has_created_channel(42));
}

#[test]
fn get_channel_info_returns_registered_record() {
    let mut st = PersistentState::new();
    assert!(st.get_channel_info(9).is_none());
    st.register_channel_creation(9, &team("Gamma", 1, 2, 3));
    let t = st.get_channel_info(9).unwrap();
    assert_eq!(t.game_name, "Gamma");
    assert_eq!(t.category_id, 1);
    assert_eq!(t.text_id, 2);
    assert_eq!(t.voice_id, 3);
}

#[test]
fn resubmission_reports_immediately_preceding_idea() {
    let mut st = PersistentState::new();
    match st.try_add_theme(7, "first".to_string()) {
        SubmissionResult::Done => {}
        SubmissionResult::AlreadySubmitted { .. } => panic!("fresh user had a previous idea"),
    }
    match st.try_add_theme(7, "second".to_string()) {
        SubmissionResult::AlreadySubmitted { previous_submission } => {
            assert_eq!(previous_submission, "first");
        }
        SubmissionResult::Done => panic!("second submission must report a replacement"),
    }
    match st.try_add_theme(7, "third".to_string()) {
        SubmissionResult::AlreadySubmitted { previous_submission } => {
            // Never an older one: the second idea, not the first.
            assert_eq!(previous_submission, "second");
        }
        SubmissionResult::Done => panic!("third submission must report a replacement"),
    }
    assert_eq!(st.theme_count(), 1);
}

#[test]
fn tracked_references_default_to_zero_and_overwrite() {
    let mut st = PersistentState::new();
    assert_eq!(st.get_role_assign_channel(), 0);
    assert_eq!(st.get_role_assign_message(), 0);
    assert_eq!(st.get_eula_channel(), 0);
    assert_eq!(st.get_eula_message(), 0);
    st.set_role_assign(100, 200);
    st.set_role_assign(101, 201);
    assert_eq!(st.get_role_assign_channel(), 101);
    assert_eq!(st.get_role_assign_message(), 201);
    st.set_eula(300, 400);
    assert_eq!(st.get_eula_channel(), 300);
    assert_eq!(st.get_eula_message(), 400);
    // Setting one reference does not disturb the other.
    assert_eq!(st.get_role_assign_channel(), 101);
}
