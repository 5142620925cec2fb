use jam_bot::mention::{parse_channel_mention, parse_user_mention, MentionParse};

#[test]
fn user_mention_is_found_anywhere_in_the_token() {
    assert!(matches!(parse_user_mention("<@!12345>"), MentionParse::Id(12345)));
    assert!(matches!(parse_user_mention("xx<@!7>yy"), MentionParse::Id(7)));
    // The leftmost mention wins.
    assert!(matches!(parse_user_mention("<@!1><@!2>"), MentionParse::Id(1)));
}

#[test]
fn malformed_user_mentions_are_refused() {
    assert!(matches!(parse_user_mention("<@12345>"), MentionParse::NoRef));
    assert!(matches!(parse_user_mention("<@!>"), MentionParse::NoRef));
    assert!(matches!(parse_user_mention("<@!12"), MentionParse::NoRef));
    assert!(matches!(parse_user_mention("plain"), MentionParse::NoRef));
    assert!(matches!(parse_user_mention(""), MentionParse::NoRef));
}

#[test]
fn oversized_user_id_is_a_bad_id() {
    assert!(matches!(parse_user_mention("<@!18446744073709551616>"), MentionParse::BadId));
}

#[test]
fn channel_mention_parses_its_own_prefix() {
    assert!(matches!(parse_channel_mention("<#55>"), MentionParse::Id(55)));
    assert!(matches!(parse_channel_mention("<@!55>"), MentionParse::NoRef));
    assert!(matches!(parse_channel_mention("<#>"), MentionParse::NoRef));
    assert!(matches!(
        parse_channel_mention("<#18446744073709551616>"),
        MentionParse::BadId
    ));
}
