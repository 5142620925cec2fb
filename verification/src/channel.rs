//! Team channels: the per-user record of created channels, the checks a
//! channel command runs before touching the chat platform, and the exact
//! reply each outcome produces.
use vstd::prelude::*;

use crate::roles;
use crate::state::PersistentState;
use crate::text::{
    has_name_breaking_char, listed, md_escape, space_join, dec_of, is_valid_game_name,
    join_with_spaces, list_strings, to_markdown_safe, u64_to_dec,
};

verus! {

/// One user's created channels: the markdown-escaped display name and the
/// three channel identifiers.
#[derive(Debug)]
pub struct Team {
    pub game_name: String,
    pub category_id: u64,
    pub text_id: u64,
    pub voice_id: u64,
}

impl Clone for Team {
    fn clone(&self) -> (r: Self)
        ensures
            r == *self,
    {
        Team {
            game_name: self.game_name.clone(),
            category_id: self.category_id,
            text_id: self.text_id,
            voice_id: self.voice_id,
        }
    }
}

/// Why a channel-creation attempt was refused or failed.
#[derive(Debug)]
pub enum ChannelCreationError {
    /// The user has already created channels.
    AlreadyCreated(u64),
    /// No name was given.
    NoName,
    /// The name holds a backtick or pipe.
    InvalidName,
    /// The platform answered the category request with something else.
    CategoryNotCreated,
    /// The platform answered the text-channel request with something else.
    TextNotCreated,
    /// The platform answered the voice-channel request with something else.
    VoiceNotCreated,
    /// The category request itself failed.
    CategoryCreationFailed,
    /// The text-channel request itself failed.
    TextCreationFailed,
    /// The voice-channel request itself failed.
    VoiceCreationFailed,
}

/// The reply sent for each way channel creation can go wrong. The
/// already-created reply echoes the existing record's name and text
/// channel.
pub open spec fn creation_error_message_spec(e: ChannelCreationError, teams: Map<u64, Team>) -> Seq<
    char,
> {
    match e {
        ChannelCreationError::AlreadyCreated(u) => "You have already created channels for your game **"@
            + teams[u].game_name@ + "** here: <#"@ + dec_of(teams[u].text_id as nat)
            + ">\nTry using `!renamechannels <new game name>` instead if you wish to rename them."@,
        ChannelCreationError::NoName => "You need to specify a game name."@,
        ChannelCreationError::InvalidName => "Game names cannot contain the characters ` or |"@,
        ChannelCreationError::CategoryNotCreated => "I asked Discord for a category but got something else. \u{1f914}"@,
        ChannelCreationError::TextNotCreated => "I asked Discord for a text channel but got something else. \u{1f914}"@,
        ChannelCreationError::VoiceNotCreated => "I asked Discord for a voice channel but got something else. \u{1f914}"@,
        ChannelCreationError::CategoryCreationFailed => "Category creation failed."@,
        ChannelCreationError::TextCreationFailed => "Text channel creation failed."@,
        ChannelCreationError::VoiceCreationFailed => "Voice channel creation failed."@,
    }
}

/// Renders the reply for a failed creation attempt.
pub fn creation_error_message(e: &ChannelCreationError, state: &PersistentState) -> (r: String)
    requires
        state.wf(),
        (*e) matches ChannelCreationError::AlreadyCreated(u) ==> state.teams().contains_key(u),
    ensures
        r@ == creation_error_message_spec(*e, state.teams()),
{
    match e {
        ChannelCreationError::AlreadyCreated(u) => {
            let team = state.get_channel_info(*u).unwrap();
            let mut m = String::new();
            m.append("You have already created channels for your game **");
            m.append(team.game_name.as_str());
            m.append("** here: <#");
            let id = u64_to_dec(team.text_id);
            m.append(id.as_str());
            m.append(
                ">\nTry using `!renamechannels <new game name>` instead if you wish to rename them.",
            );
            proof {
                assert(m@ =~= creation_error_message_spec(*e, state.teams()));
            }
            m
        },
        ChannelCreationError::NoName => String::from_str("You need to specify a game name."),
        ChannelCreationError::InvalidName => String::from_str(
            "Game names cannot contain the characters ` or |",
        ),
        ChannelCreationError::CategoryNotCreated => String::from_str(
            "I asked Discord for a category but got something else. \u{1f914}",
        ),
        ChannelCreationError::TextNotCreated => String::from_str(
            "I asked Discord for a text channel but got something else. \u{1f914}",
        ),
        ChannelCreationError::VoiceNotCreated => String::from_str(
            "I asked Discord for a voice channel but got something else. \u{1f914}",
        ),
        ChannelCreationError::CategoryCreationFailed => String::from_str(
            "Category creation failed.",
        ),
        ChannelCreationError::TextCreationFailed => String::from_str(
            "Text channel creation failed.",
        ),
        ChannelCreationError::VoiceCreationFailed => String::from_str(
            "Voice channel creation failed.",
        ),
    }
}

/// The reply refusing a channel command to a user who is neither a jammer
/// nor an organizer.
pub open spec fn not_jammer_message_spec() -> Seq<char> {
    "Oo, you found a secret command. \u{1f609}\nYou will be able to use this command once you have been assigned the **"@
        + roles::jammer_name() + "** role.\nYou will be able to get this role once the jam has started. The details on how to do so will be made available at that point."@
}

pub fn not_jammer_message() -> (r: String)
    ensures
        r@ == not_jammer_message_spec(),
{
    let mut m = String::new();
    m.append(
        "Oo, you found a secret command. \u{1f609}\nYou will be able to use this command once you have been assigned the **",
    );
    m.append(roles::jammer());
    m.append(
        "** role.\nYou will be able to get this role once the jam has started. The details on how to do so will be made available at that point.",
    );
    proof {
        assert(m@ =~= not_jammer_message_spec());
    }
    m
}

/// What the checks before any channel is requested decide: the raw name
/// to build from, or the refusal, in the order the checks run (an
/// existing team first, then a missing name, then a name-breaking
/// character).
pub open spec fn create_precheck_spec(teams: Map<u64, Team>, user: u64, args: Seq<Seq<char>>) -> Result<
    Seq<char>,
    ChannelCreationError,
> {
    if teams.contains_key(user) {
        Result::Err(ChannelCreationError::AlreadyCreated(user))
    } else if args.len() == 0 {
        Result::Err(ChannelCreationError::NoName)
    } else if has_name_breaking_char(space_join(args)) {
        Result::Err(ChannelCreationError::InvalidName)
    } else {
        Result::Ok(space_join(args))
    }
}

/// Runs the checks that precede any channel request, handing back the raw
/// game name on success.
pub fn create_team_precheck(state: &PersistentState, user: u64, rest_command: &Vec<String>) -> (r:
    Result<String, ChannelCreationError>)
    requires
        state.wf(),
    ensures
        match (r, create_precheck_spec(state.teams(), user, rest_command.deep_view())) {
            (Result::Ok(name), Result::Ok(spec_name)) => name@ == spec_name,
            (Result::Err(e1), Result::Err(e2)) => e1 == e2,
            _ => false,
        },
{
    if state.has_created_channel(user) {
        return Result::Err(ChannelCreationError::AlreadyCreated(user));
    }
    if rest_command.len() == 0 {
        return Result::Err(ChannelCreationError::NoName);
    }
    let name = join_with_spaces(rest_command);
    if !is_valid_game_name(name.as_str()) {
        return Result::Err(ChannelCreationError::InvalidName);
    }
    Result::Ok(name)
}

/// The category is named after the team.
pub open spec fn category_name_spec(game: Seq<char>) -> Seq<char> {
    "Team: "@ + game
}

pub fn category_name_for(game: &str) -> (r: String)
    ensures
        r@ == category_name_spec(game@),
{
    let mut m = String::new();
    m.append("Team: ");
    m.append(game);
    m
}

/// The topic written on the team's text channel.
pub open spec fn channel_topic_spec(game: Seq<char>) -> Seq<char> {
    "Work on and playtesting of the game "@ + game + "."@
}

pub fn channel_topic_for(game: &str) -> (r: String)
    ensures
        r@ == channel_topic_spec(game@),
{
    let mut m = String::new();
    m.append("Work on and playtesting of the game ");
    m.append(game);
    m.append(".");
    proof {
        assert(m@ =~= channel_topic_spec(game@));
    }
    m
}

/// Builds the team record from the three created channels and registers
/// it; the stored display name is the raw name escaped exactly once.
pub fn register_created_team(
    state: &mut PersistentState,
    user: u64,
    raw_name: &str,
    category_id: u64,
    text_id: u64,
    voice_id: u64,
) -> (team: Team)
    requires
        old(state).wf(),
    ensures
        final(state).wf(),
        team.game_name@ == md_escape(raw_name@, false),
        team.category_id == category_id,
        team.text_id == text_id,
        team.voice_id == voice_id,
        final(state).teams() == old(state).teams().insert(user, team),
        final(state).themes() == old(state).themes(),
        final(state).eula_ref() == old(state).eula_ref(),
        final(state).role_assign_ref() == old(state).role_assign_ref(),
{
    let team = Team { game_name: to_markdown_safe(raw_name), category_id, text_id, voice_id };
    state.register_channel_creation(user, &team);
    team
}

/// The reply that announces freshly created channels.
pub open spec fn create_success_message_spec(game: Seq<char>, text_id: u64) -> Seq<char> {
    "Channels created for your game **"@ + game + "** here: <#"@ + dec_of(text_id as nat) + ">"@
}

pub fn create_success_message(team: &Team) -> (r: String)
    ensures
        r@ == create_success_message_spec(team.game_name@, team.text_id),
{
    let mut m = String::new();
    m.append("Channels created for your game **");
    m.append(team.game_name.as_str());
    m.append("** here: <#");
    let id = u64_to_dec(team.text_id);
    m.append(id.as_str());
    m.append(">");
    proof {
        assert(m@ =~= create_success_message_spec(team.game_name@, team.text_id));
    }
    m
}

// ---------------------------------------------------------------------------
// Renaming
// ---------------------------------------------------------------------------

/// Why a rename command sent no rename request: the arguments were empty
/// (the command is ignored), the name is invalid, or the user has no
/// team. The checks run in that order.
#[derive(Debug)]
pub enum RenameRefusal {
    NoArgs,
    InvalidName,
    NoTeam,
}

pub open spec fn rename_precheck_spec(teams: Map<u64, Team>, user: u64, args: Seq<Seq<char>>) -> Result<
    Seq<char>,
    RenameRefusal,
> {
    if args.len() == 0 {
        Result::Err(RenameRefusal::NoArgs)
    } else if has_name_breaking_char(space_join(args)) {
        Result::Err(RenameRefusal::InvalidName)
    } else if !teams.contains_key(user) {
        Result::Err(RenameRefusal::NoTeam)
    } else {
        Result::Ok(space_join(args))
    }
}

/// Runs the checks that precede any rename request, handing back the raw
/// replacement name on success.
pub fn rename_precheck(state: &PersistentState, user: u64, rest_command: &Vec<String>) -> (r:
    Result<String, RenameRefusal>)
    requires
        state.wf(),
    ensures
        match (r, rename_precheck_spec(state.teams(), user, rest_command.deep_view())) {
            (Result::Ok(name), Result::Ok(spec_name)) => name@ == spec_name,
            (Result::Err(e1), Result::Err(e2)) => e1 == e2,
            _ => false,
        },
{
    if rest_command.len() == 0 {
        return Result::Err(RenameRefusal::NoArgs);
    }
    let name = join_with_spaces(rest_command);
    if !is_valid_game_name(name.as_str()) {
        return Result::Err(RenameRefusal::InvalidName);
    }
    if !state.has_created_channel(user) {
        return Result::Err(RenameRefusal::NoTeam);
    }
    Result::Ok(name)
}

/// The reply for each rename refusal; empty arguments draw no reply.
pub fn rename_refusal_message(e: &RenameRefusal) -> (r: Option<String>)
    ensures
        match e {
            RenameRefusal::NoArgs => r is None,
            RenameRefusal::InvalidName => r matches Some(m) && m@
                == "Game names cannot contain the characters ` or |"@,
            RenameRefusal::NoTeam => r matches Some(m) && m@
                == "You have not created a channel yet.\nTry using `!createchannels <game name>` instead."@,
        },
{
    match e {
        RenameRefusal::NoArgs => None,
        RenameRefusal::InvalidName => Some(
            String::from_str("Game names cannot contain the characters ` or |"),
        ),
        RenameRefusal::NoTeam => Some(
            String::from_str(
                "You have not created a channel yet.\nTry using `!createchannels <game name>` instead.",
            ),
        ),
    }
}

/// Re-registers the user's team under the new name, escaped exactly once;
/// the channel identifiers stay as they were.
pub fn apply_rename(state: &mut PersistentState, user: u64, new_raw: &str) -> (team: Team)
    requires
        old(state).wf(),
        old(state).teams().contains_key(user),
    ensures
        final(state).wf(),
        team.game_name@ == md_escape(new_raw@, false),
        team.category_id == old(state).teams()[user].category_id,
        team.text_id == old(state).teams()[user].text_id,
        team.voice_id == old(state).teams()[user].voice_id,
        final(state).teams() == old(state).teams().insert(user, team),
        final(state).themes() == old(state).themes(),
        final(state).eula_ref() == old(state).eula_ref(),
        final(state).role_assign_ref() == old(state).role_assign_ref(),
{
    let old_team = state.get_channel_info(user).unwrap().clone();
    let team = Team {
        game_name: to_markdown_safe(new_raw),
        category_id: old_team.category_id,
        text_id: old_team.text_id,
        voice_id: old_team.voice_id,
    };
    state.register_channel_creation(user, &team);
    team
}

/// What came back from the three rename requests: the renamed category's
/// name, the renamed text channel's name and identifier, and the renamed
/// voice channel's name — or nothing where a request failed.
#[derive(Debug)]
pub struct RenameOutcome {
    pub category: Option<String>,
    pub text: Option<(String, u64)>,
    pub voice: Option<String>,
}

/// The success phrases of a rename, in the order the requests ran.
pub open spec fn rename_oks(o: RenameOutcome) -> Seq<Seq<char>> {
    let cat: Seq<Seq<char>> = match o.category {
        Option::Some(name) => seq!["category to **"@ + name@ + "**"@],
        Option::None => seq![],
    };
    let text: Seq<Seq<char>> = match o.text {
        Option::Some(p) => seq![
            "text channel to **#"@ + p.0@ + "** (found here: <#"@ + dec_of(p.1 as nat) + ">)"@,
        ],
        Option::None => seq![],
    };
    let voice: Seq<Seq<char>> = match o.voice {
        Option::Some(name) => seq!["voice channel to **"@ + name@ + "**"@],
        Option::None => seq![],
    };
    cat + text + voice
}

/// The failure phrases of a rename, in the same order.
pub open spec fn rename_errs(o: RenameOutcome) -> Seq<Seq<char>> {
    let cat: Seq<Seq<char>> = if o.category is None {
        seq!["category"@]
    } else {
        seq![]
    };
    let text: Seq<Seq<char>> = if o.text is None {
        seq!["text channel"@]
    } else {
        seq![]
    };
    let voice: Seq<Seq<char>> = if o.voice is None {
        seq!["voice channel"@]
    } else {
        seq![]
    };
    cat + text + voice
}

/// `have` for several missing channels, `has` for one.
pub open spec fn have_has(n: nat) -> Seq<char> {
    if n > 1 {
        "have"@
    } else {
        "has"@
    }
}

/// The reply reporting a rename: what was renamed, and what seems to have
/// been removed already.
pub open spec fn rename_reply_spec(o: RenameOutcome, game: Seq<char>) -> Seq<char> {
    let oks = rename_oks(o);
    let errs = rename_errs(o);
    if oks.len() > 0 {
        if errs.len() > 0 {
            "Renamed "@ + listed(oks) + " for your game **"@ + game + "** but its "@ + listed(errs)
                + " "@ + have_has(errs.len()) + " been removed, it seems."@
        } else {
            "Renamed "@ + listed(oks) + " for your game **"@ + game + "**."@
        }
    } else {
        "Category, text channel and voice channel for your game **"@ + game
            + "** have been removed, it seems."@
    }
}

fn push_rename_entries(o: &RenameOutcome) -> (r: (Vec<String>, Vec<String>))
    ensures
        r.0.deep_view() == rename_oks(*o),
        r.1.deep_view() == rename_errs(*o),
{
    let mut oks: Vec<String> = Vec::new();
    let mut errs: Vec<String> = Vec::new();
    match &o.category {
        Some(name) => {
            let mut e = String::new();
            e.append("category to **");
            e.append(name.as_str());
            e.append("**");
            oks.push(e);
        },
        None => {
            errs.push(String::from_str("category"));
        },
    }
    match &o.text {
        Some(p) => {
            let mut e = String::new();
            e.append("text channel to **#");
            e.append(p.0.as_str());
            e.append("** (found here: <#");
            let id = u64_to_dec(p.1);
            e.append(id.as_str());
            e.append(">)");
            oks.push(e);
        },
        None => {
            errs.push(String::from_str("text channel"));
        },
    }
    match &o.voice {
        Some(name) => {
            let mut e = String::new();
            e.append("voice channel to **");
            e.append(name.as_str());
            e.append("**");
            oks.push(e);
        },
        None => {
            errs.push(String::from_str("voice channel"));
        },
    }
    proof {
        assert(oks.deep_view() =~= rename_oks(*o));
        assert(errs.deep_view() =~= rename_errs(*o));
    }
    (oks, errs)
}

/// Renders the rename reply from the three request outcomes.
pub fn compose_rename_reply(o: &RenameOutcome, game_name: &str) -> (r: String)
    ensures
        r@ == rename_reply_spec(*o, game_name@),
{
    let (oks, errs) = push_rename_entries(o);
    let n_errs = errs.len();
    let mut m = String::new();
    if oks.len() > 0 {
        let listed_oks = list_strings(oks);
        if n_errs > 0 {
            let listed_errs = list_strings(errs);
            m.append("Renamed ");
            m.append(listed_oks.as_str());
            m.append(" for your game **");
            m.append(game_name);
            m.append("** but its ");
            m.append(listed_errs.as_str());
            m.append(" ");
            if n_errs > 1 {
                m.append("have");
            } else {
                m.append("has");
            }
            m.append(" been removed, it seems.");
        } else {
            m.append("Renamed ");
            m.append(listed_oks.as_str());
            m.append(" for your game **");
            m.append(game_name);
            m.append("**.");
        }
    } else {
        m.append("Category, text channel and voice channel for your game **");
        m.append(game_name);
        m.append("** have been removed, it seems.");
    }
    proof {
        assert(m@ =~= rename_reply_spec(*o, game_name@));
    }
    m
}

// ---------------------------------------------------------------------------
// Removal
// ---------------------------------------------------------------------------

/// What the removal command decides before any channel is deleted, in the
/// order the checks run.
#[derive(Debug)]
pub enum RemoveDecision {
    /// The caller is no organizer.
    NotOrganizer,
    /// No argument was given.
    MissingArg,
    /// The first argument holds no user mention.
    InvalidUserRef,
    /// The mentioned identifier does not fit a user id.
    InvalidUserId,
    /// The mentioned user has no team.
    NoTeam,
    /// Delete this user's channels.
    Proceed(u64, Team),
}

pub open spec fn remove_decision_spec(
    teams: Map<u64, Team>,
    is_organizer: bool,
    args: Seq<Seq<char>>,
) -> RemoveDecision {
    if !is_organizer {
        RemoveDecision::NotOrganizer
    } else if args.len() == 0 {
        RemoveDecision::MissingArg
    } else {
        match crate::mention::mention_parse_of(args[0], crate::mention::user_mention_prefix()) {
            crate::mention::MentionParse::NoRef => RemoveDecision::InvalidUserRef,
            crate::mention::MentionParse::BadId => RemoveDecision::InvalidUserId,
            crate::mention::MentionParse::Id(u) => if !teams.contains_key(u) {
                RemoveDecision::NoTeam
            } else {
                RemoveDecision::Proceed(u, teams[u])
            },
        }
    }
}

/// Decides what the removal command does, from the caller's role, the
/// arguments, and the record.
pub fn remove_channels_decision(
    state: &PersistentState,
    is_organizer: bool,
    rest_command: &Vec<String>,
) -> (r: RemoveDecision)
    requires
        state.wf(),
    ensures
        r == remove_decision_spec(state.teams(), is_organizer, rest_command.deep_view()),
{
    if !is_organizer {
        return RemoveDecision::NotOrganizer;
    }
    if rest_command.len() == 0 {
        return RemoveDecision::MissingArg;
    }
    match crate::mention::parse_user_mention(rest_command[0].as_str()) {
        crate::mention::MentionParse::NoRef => RemoveDecision::InvalidUserRef,
        crate::mention::MentionParse::BadId => RemoveDecision::InvalidUserId,
        crate::mention::MentionParse::Id(u) => {
            match state.get_channel_info(u) {
                None => RemoveDecision::NoTeam,
                Some(team) => RemoveDecision::Proceed(u, team.clone()),
            }
        },
    }
}

/// The reply for each removal refusal; `Proceed` draws none here.
pub fn remove_refusal_message(d: &RemoveDecision) -> (r: Option<String>)
    ensures
        match d {
            RemoveDecision::NotOrganizer => r matches Some(m) && m@
                == "You need to be an **organizer** to use this command."@,
            RemoveDecision::MissingArg => r matches Some(m) && m@
                == "You forgot to provide a user id."@,
            RemoveDecision::InvalidUserRef => r matches Some(m) && m@
                == "Invalid user reference."@,
            RemoveDecision::InvalidUserId => r matches Some(m) && m@
                == "That user id is invalid."@,
            RemoveDecision::NoTeam => r matches Some(m) && m@
                == "That user does not have any team channels."@,
            RemoveDecision::Proceed(_, _) => r is None,
        },
{
    match d {
        RemoveDecision::NotOrganizer => Some(
            String::from_str("You need to be an **organizer** to use this command."),
        ),
        RemoveDecision::MissingArg => Some(String::from_str("You forgot to provide a user id.")),
        RemoveDecision::InvalidUserRef => Some(String::from_str("Invalid user reference.")),
        RemoveDecision::InvalidUserId => Some(String::from_str("That user id is invalid.")),
        RemoveDecision::NoTeam => Some(
            String::from_str("That user does not have any team channels."),
        ),
        RemoveDecision::Proceed(_, _) => None,
    }
}

/// What came back from the three deletion requests: each deleted
/// channel's name, or nothing where deletion failed.
#[derive(Debug)]
pub struct RemoveOutcome {
    pub category: Option<String>,
    pub text: Option<String>,
    pub voice: Option<String>,
}

/// The success phrases of a removal: the category first, then the text
/// and voice channels in the order their deletions ran.
pub open spec fn remove_oks(o: RemoveOutcome) -> Seq<Seq<char>> {
    let cat: Seq<Seq<char>> = match o.category {
        Option::Some(name) => seq!["category **"@ + name@ + "**"@],
        Option::None => seq![],
    };
    let text: Seq<Seq<char>> = match o.text {
        Option::Some(name) => seq!["text channel **#"@ + name@ + "**"@],
        Option::None => seq![],
    };
    let voice: Seq<Seq<char>> = match o.voice {
        Option::Some(name) => seq!["voice channel **"@ + name@ + "**"@],
        Option::None => seq![],
    };
    cat + text + voice
}

pub open spec fn remove_errs(o: RemoveOutcome) -> Seq<Seq<char>> {
    let cat: Seq<Seq<char>> = if o.category is None {
        seq!["category"@]
    } else {
        seq![]
    };
    let text: Seq<Seq<char>> = if o.text is None {
        seq!["text channel"@]
    } else {
        seq![]
    };
    let voice: Seq<Seq<char>> = if o.voice is None {
        seq!["voice channel"@]
    } else {
        seq![]
    };
    cat + text + voice
}

/// The reply reporting a removal: what was removed, and what had already
/// been removed.
pub open spec fn remove_reply_spec(o: RemoveOutcome, game: Seq<char>) -> Seq<char> {
    let oks = remove_oks(o);
    let errs = remove_errs(o);
    if oks.len() > 0 {
        if errs.len() > 0 {
            "Removed "@ + listed(oks) + " for the game **"@ + game + "** but its "@ + listed(errs)
                + " "@ + have_has(errs.len()) + " already been removed."@
        } else {
            "Removed "@ + listed(oks) + " for the game **"@ + game + "**."@
        }
    } else {
        "Category, text channel and voice channel for the game **"@ + game
            + "** have already been removed."@
    }
}

fn push_remove_entries(o: &RemoveOutcome) -> (r: (Vec<String>, Vec<String>))
    ensures
        r.0.deep_view() == remove_oks(*o),
        r.1.deep_view() == remove_errs(*o),
{
    let mut oks: Vec<String> = Vec::new();
    let mut errs: Vec<String> = Vec::new();
    match &o.category {
        Some(name) => {
            let mut e = String::new();
            e.append("category **");
            e.append(name.as_str());
            e.append("**");
            oks.push(e);
        },
        None => {
            errs.push(String::from_str("category"));
        },
    }
    match &o.text {
        Some(name) => {
            let mut e = String::new();
            e.append("text channel **#");
            e.append(name.as_str());
            e.append("**");
            oks.push(e);
        },
        None => {
            errs.push(String::from_str("text channel"));
        },
    }
    match &o.voice {
        Some(name) => {
            let mut e = String::new();
            e.append("voice channel **");
            e.append(name.as_str());
            e.append("**");
            oks.push(e);
        },
        None => {
            errs.push(String::from_str("voice channel"));
        },
    }
    proof {
        assert(oks.deep_view() =~= remove_oks(*o));
        assert(errs.deep_view() =~= remove_errs(*o));
    }
    (oks, errs)
}

/// Unregisters the user's team — whatever the three deletions came to —
/// and renders the reply. Afterwards the user has no team.
pub fn finish_remove_channels(
    state: &mut PersistentState,
    user: u64,
    o: &RemoveOutcome,
    game_name: &str,
) -> (reply: String)
    requires
        old(state).wf(),
    ensures
        final(state).wf(),
        final(state).teams() == old(state).teams().remove(user),
        !final(state).teams().contains_key(user),
        final(state).themes() == old(state).themes(),
        final(state).eula_ref() == old(state).eula_ref(),
        final(state).role_assign_ref() == old(state).role_assign_ref(),
        reply@ == remove_reply_spec(*o, game_name@),
{
    state.remove_channel(user);
    let (oks, errs) = push_remove_entries(o);
    let n_errs = errs.len();
    let mut m = String::new();
    if oks.len() > 0 {
        let listed_oks = list_strings(oks);
        if n_errs > 0 {
            let listed_errs = list_strings(errs);
            m.append("Removed ");
            m.append(listed_oks.as_str());
            m.append(" for the game **");
            m.append(game_name);
            m.append("** but its ");
            m.append(listed_errs.as_str());
            m.append(" ");
            if n_errs > 1 {
                m.append("have");
            } else {
                m.append("has");
            }
            m.append(" already been removed.");
        } else {
            m.append("Removed ");
            m.append(listed_oks.as_str());
            m.append(" for the game **");
            m.append(game_name);
            m.append("**.");
        }
    } else {
        m.append("Category, text channel and voice channel for the game **");
        m.append(game_name);
        m.append("** have already been removed.");
    }
    proof {
        assert(m@ =~= remove_reply_spec(*o, game_name@));
    }
    m
}

} // verus!
